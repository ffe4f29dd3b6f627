//! From a request's arrival to its answer.

use rift_mock_core::debug::{debug_match, debug_request, debug_response};
use rift_mock_core::delivery::{
    body_text, bytes_or_raw, default_response, finish, serve_decoded, take_body, BodyRead, RequestBody,
};
use rift_mock_core::fault::TcpFaultKind;
use rift_mock_core::json::{Json, JsonObject};
use rift_mock_core::pipeline::{
    script_headers, start_behaviors, BehaviorEvent, BehaviorOutcome, BehaviorRun, BehaviorStage,
    BehaviorStep, ServedParts,
};
use rift_mock_core::predicate::{MatchError, Predicate, PredicateOperation, PredicateParameters};
use rift_mock_core::proxy_run::RecordedResponse;
use rift_mock_core::responses::{
    backend_error_response, body_read_error_response, build_failure_response,
    debug_matching_error_response, debug_matching_timeout_response, disabled_response,
    failure_report, handle_fault_response, inject_cors_headers, inject_timeout_response,
    matcher_error_response, sanitize_header_value, template_error_response,
    upstream_error_response, MatcherFailure, ServedResponse, MAX_REQUEST_BODY_SIZE,
};
use rift_mock_core::serving::{
    arrive, fault_response, forward_response, is_debug_request, request_to_record, resume_answer, resume_intake,
    script_failure_response, script_response, seal, start_answer, start_unmatched, AnswerEvent,
    AnswerPhase, AnswerStep, IntakeEvent, IntakePhase, IntakeStep, ScriptDecision, UnmatchedStep,
};
use rift_mock_core::stub::StubState;
use rift_mock_core::types::{
    ImposterConfig, IsResponse, ProxyResponse, ResponseBehaviors, ResponseMode, RiftErrorFault,
    RiftFaultConfig, RiftLatencyFault, RiftResponseExtension, RiftScriptConfig, RiftTcpFault, Stub,
    StubResponse,
};

fn header<'a>(r: &'a ServedResponse, name: &str) -> Option<&'a str> {
    r.headers.iter().find(|h| h.0 == name).map(|h| h.1.as_str())
}

fn text(r: &ServedResponse) -> String {
    String::from_utf8(r.body.clone()).expect("utf8")
}

fn envelope(r: &ServedResponse) -> serde_json::Value {
    serde_json::from_slice(&r.body).expect("body must be the JSON envelope")
}

fn code(r: &ServedResponse) -> String {
    envelope(r)["errors"][0]["code"].as_str().expect("a code").to_string()
}

fn message(r: &ServedResponse) -> String {
    envelope(r)["errors"][0]["message"].as_str().expect("a message").to_string()
}

fn strings(list: &[&str]) -> Vec<String> {
    list.iter().map(|s| s.to_string()).collect()
}

fn pairs(list: &[(&str, &str)]) -> Vec<(String, String)> {
    list.iter().map(|(a, b)| (a.to_string(), b.to_string())).collect()
}

fn lines(list: &[(&str, &[&str])]) -> Vec<(String, Vec<String>)> {
    list.iter().map(|(n, v)| (n.to_string(), strings(v))).collect()
}

#[test]
fn inject_timeout_response_is_504_with_code_and_markers() {
    let resp = inject_timeout_response("injection timeout", "inject timed out after 1ms");
    assert_eq!(resp.status, 504);
    assert!(header(&resp, "x-rift-inject-error").is_some());
    assert!(header(&resp, "x-rift-script-timeout").is_some());
    assert_eq!(header(&resp, "content-type"), Some("application/json"));
    assert!(text(&resp).contains("\"code\":\"injection timeout\""));
}

#[test]
fn predicate_inject_error_maps_to_400() {
    let e = MatcherFailure::Failed(MatchError::Inject("bad predicate".to_string()));
    let resp = matcher_error_response(&e);
    assert_eq!(resp.status, 400);
    assert!(header(&resp, "x-rift-inject-error").is_some());
    assert_eq!(code(&resp), "invalid predicate injection");
}

#[test]
fn other_matcher_error_maps_to_5xx() {
    let e = MatcherFailure::Failed(MatchError::Store(
        "scenario-state backend read failed".to_string(),
    ));
    let resp = matcher_error_response(&e);
    assert_eq!(resp.status, 500);
    assert!(header(&resp, "x-rift-inject-error").is_none());
}

#[test]
fn predicate_inject_timeout_maps_to_504() {
    let e = MatcherFailure::Timeout("predicate inject timed out after 50ms".to_string());
    let resp = matcher_error_response(&e);
    assert_eq!(resp.status, 504);
    assert!(header(&resp, "x-rift-script-timeout").is_some());
    assert!(header(&resp, "x-rift-inject-error").is_some());
}

#[test]
fn template_error_response_is_500_with_marker_and_json_envelope() {
    let resp = template_error_response("template error in `{{ nope }}`: unknown token");
    assert_eq!(resp.status, 500);
    assert!(header(&resp, "x-rift-template-error").is_some());
    assert_eq!(header(&resp, "content-type"), Some("application/json"));
    assert_eq!(code(&resp), "500", "envelope code is the status");
    assert!(message(&resp).contains("template rendering failed"));
}

#[test]
fn under_limit_returns_the_bytes() {
    let got = take_body(BodyRead::Bytes(b"hello".to_vec())).expect("under limit");
    assert_eq!(got.body.as_deref(), Some("hello"));
    assert_eq!(got.mode, ResponseMode::Text);
}

#[test]
fn at_the_cap_boundary_is_accepted() {
    let got = take_body(BodyRead::Bytes(vec![b'x'; MAX_REQUEST_BODY_SIZE])).expect("at the cap");
    assert_eq!(got.body.expect("a body").len(), MAX_REQUEST_BODY_SIZE);
}

#[test]
fn oversize_is_flagged_too_large_not_read() {
    for read in [BodyRead::Bytes(vec![b'x'; MAX_REQUEST_BODY_SIZE + 1]), BodyRead::TooLarge] {
        let resp = take_body(read).expect_err("over limit");
        assert_eq!(resp.status, 413);
        assert_eq!(message(&resp), "Request body exceeds maximum size of 10485760 bytes");
    }
}

#[test]
fn read_error_door_is_400_envelope_and_logs_the_cause() {
    let resp = body_read_error_response();
    assert_eq!(resp.status, 400);
    assert_eq!(header(&resp, "content-type"), Some("application/json"));
    assert!(header(&resp, "x-rift-imposter").is_some());
    assert_eq!(code(&resp), "400", "envelope code is the status");
    assert!(message(&resp).contains("Failed to read request body"));
    assert_eq!(take_body(BodyRead::Failed).expect_err("read failure").status, 400);
}

#[test]
fn debug_matching_error_door_is_500_envelope() {
    let resp = debug_matching_error_response();
    assert_eq!(resp.status, 500);
    assert_eq!(header(&resp, "content-type"), Some("application/json"));
    assert!(header(&resp, "x-rift-imposter").is_some());
    assert_eq!(code(&resp), "500");
    assert!(message(&resp).contains("Debug matching failed"));
}

#[test]
fn debug_matching_timeout_door_is_504_with_timeout_marker() {
    let resp = debug_matching_timeout_response();
    assert_eq!(resp.status, 504);
    assert!(header(&resp, "x-rift-script-timeout").is_some());
    assert_eq!(header(&resp, "content-type"), Some("application/json"));
    assert!(header(&resp, "x-rift-imposter").is_some());
    assert_eq!(code(&resp), "504", "envelope code tracks the status");
    assert!(message(&resp).contains("Debug matching timed out"));
}

#[test]
fn build_failure_response_is_500_envelope_and_logs_context() {
    let resp = build_failure_response();
    assert_eq!(resp.status, 500);
    assert_eq!(header(&resp, "content-type"), Some("application/json"));
    assert!(header(&resp, "x-rift-imposter").is_some());
    assert_eq!(code(&resp), "500");
    assert!(message(&resp).contains("Response build error"));
}

#[test]
fn debug_serialize_failure_maps_to_500() {
    let resp = debug_response(None);
    assert_eq!(resp.status, 500);
    assert_eq!(code(&resp), "500", "envelope code is the status");
}

#[test]
fn debug_serialize_success_keeps_200_and_the_payload() {
    let resp = debug_response(Some(r#"{"debug": true}"#));
    assert_eq!(resp.status, 200);
    assert_eq!(envelope(&resp)["debug"], serde_json::Value::Bool(true));
    assert_eq!(header(&resp, "X-Rift-Debug-Response"), Some("true"));
}

#[test]
fn top_level_fault_carries_real_tcp_fault_extension() {
    for (name, kind) in [
        ("CONNECTION_RESET_BY_PEER", TcpFaultKind::Reset),
        ("RANDOM_DATA_THEN_CLOSE", TcpFaultKind::RandomData),
        ("EMPTY_RESPONSE", TcpFaultKind::Empty),
        ("MALFORMED_RESPONSE_CHUNK", TcpFaultKind::MalformedChunk),
    ] {
        assert_eq!(handle_fault_response(name).fault, Some(kind));
    }
    let unknown = handle_fault_response("NOT_A_FAULT");
    assert!(unknown.fault.is_none());
    assert_eq!(unknown.status, 500);
    assert_eq!(text(&unknown), "Unknown fault: NOT_A_FAULT");
}

/// A probability of one.
const ALWAYS: u64 = 0x3ff0_0000_0000_0000;

fn error_fault(status: u16) -> Option<RiftErrorFault> {
    Some(RiftErrorFault { probability_bits: ALWAYS, status, body: None, headers: Vec::new() })
}

fn tcp_fault(kind: &str) -> Option<RiftTcpFault> {
    Some(RiftTcpFault { probability_bits: ALWAYS, kind: kind.to_string() })
}

fn latency_fault(ms: u64) -> Option<RiftLatencyFault> {
    Some(RiftLatencyFault { probability_bits: ALWAYS, ms: Some(ms), min_ms: 0, max_ms: 0 })
}

#[test]
fn tcp_takes_precedence_over_error() {
    let config = RiftFaultConfig {
        latency: latency_fault(0),
        error: error_fault(503),
        tcp: tcp_fault("CONNECTION_RESET_BY_PEER"),
    };
    let response = fault_response(&config, true, true).expect("a fault response");
    assert_eq!(response.fault, Some(TcpFaultKind::Reset));
    assert_ne!(response.status, 503);
    assert_eq!(header(&response, "x-rift-fault"), Some("CONNECTION_RESET_BY_PEER"));
}

#[test]
fn error_fault_applies_when_no_tcp() {
    let config =
        RiftFaultConfig { latency: latency_fault(0), error: error_fault(503), tcp: None };
    let response = fault_response(&config, true, true).expect("a fault response");
    assert_eq!(response.status, 503);
    assert_eq!(header(&response, "x-rift-fault"), Some("error"));
    assert!(response.fault.is_none());
}

#[test]
fn unparseable_tcp_falls_through_to_error() {
    let config =
        RiftFaultConfig { latency: None, error: error_fault(503), tcp: tcp_fault("NONSENSE") };
    let response = fault_response(&config, true, true).expect("a fault response");
    assert_eq!(response.status, 503);
    assert_eq!(header(&response, "x-rift-fault"), Some("error"));
    assert!(response.fault.is_none());
}

#[test]
fn tcp_fault_alone_resets() {
    let config = RiftFaultConfig {
        latency: None,
        error: None,
        tcp: tcp_fault("CONNECTION_RESET_BY_PEER"),
    };
    let response = fault_response(&config, true, false).expect("a fault response");
    assert_eq!(response.fault, Some(TcpFaultKind::Reset));
}

#[test]
fn tcp_object_probability_zero_never_resets() {
    let config = RiftFaultConfig {
        latency: None,
        error: None,
        tcp: tcp_fault("CONNECTION_RESET_BY_PEER"),
    };
    assert!(fault_response(&config, false, false).is_none());
}

#[test]
fn tcp_object_probability_zero_falls_through_to_error() {
    let config = RiftFaultConfig {
        latency: None,
        error: error_fault(503),
        tcp: tcp_fault("CONNECTION_RESET_BY_PEER"),
    };
    let response = fault_response(&config, false, true).expect("a fault response");
    assert_eq!(response.status, 503);
    assert!(response.fault.is_none());
}

#[test]
fn tcp_object_probability_one_matches_bare_string() {
    let config = RiftFaultConfig {
        latency: None,
        error: error_fault(503),
        tcp: tcp_fault("CONNECTION_RESET_BY_PEER"),
    };
    let response = fault_response(&config, true, true).expect("a fault response");
    assert_eq!(response.fault, Some(TcpFaultKind::Reset));
    assert_ne!(response.status, 503);
    assert_eq!(header(&response, "x-rift-fault"), Some("CONNECTION_RESET_BY_PEER"));
}

#[test]
fn error_faults_carry_their_own_headers_and_body() {
    let config = RiftFaultConfig {
        latency: None,
        error: Some(RiftErrorFault {
            probability_bits: ALWAYS,
            status: 418,
            body: Some("short and stout".to_string()),
            headers: pairs(&[("retry-after", "1")]),
        }),
        tcp: None,
    };
    let r = fault_response(&config, false, true).expect("a fault response");
    assert_eq!(
        r.headers,
        pairs(&[("retry-after", "1"), ("x-rift-imposter", "true"), ("x-rift-fault", "error")])
    );
    assert_eq!(text(&r), "short and stout");
}

fn chained_error() -> Vec<String> {
    strings(&[
        "Failed to send proxy request to https://upstream.internal/",
        "dns error",
        "failed to lookup address information: Name does not resolve",
    ])
}

#[test]
fn log_upstream_failure_names_the_whole_chain() {
    let line = failure_report("Inject function failed", &chained_error());
    assert!(line.contains("Inject function failed"));
    assert!(line.contains("dns error"));
    assert!(line.contains("Name does not resolve"));
}

#[test]
fn upstream_error_body_is_the_canonical_envelope() {
    let r = upstream_error_response(&chained_error(), "x-rift-proxy-error", "Proxy error");
    assert_eq!(code(&r), "502", "envelope code is the status");
    assert!(message(&r).contains("Proxy error: Failed to send proxy request"));
    assert!(envelope(&r).get("error").is_none());
}

#[test]
fn upstream_error_body_withholds_the_cause_chain() {
    let r = upstream_error_response(&chained_error(), "x-rift-proxy-error", "Proxy error");
    assert!(!text(&r).contains("dns error"));
    assert!(!text(&r).contains("Name does not resolve"));
}

#[test]
fn a_quote_in_the_upstream_error_still_yields_valid_json() {
    let chain = strings(&[
        r#"Failed to send proxy request to https://x/?q="a""#,
        "root cause",
    ]);
    let r = upstream_error_response(&chain, "x-rift-proxy-error", "Proxy error");
    assert!(message(&r).contains(r#"?q="a""#));
}

#[test]
fn upstream_error_keeps_status_and_rift_markers() {
    let r = upstream_error_response(
        &chained_error(),
        "x-rift-default-forward-error",
        "defaultForward upstream error",
    );
    assert_eq!(r.status, 502);
    assert_eq!(header(&r, "x-rift-imposter"), Some("true"));
    assert_eq!(header(&r, "x-rift-default-forward-error"), Some("true"));
    assert_eq!(header(&r, "content-type"), Some("application/json"));
}

fn behaviors(decorate: Option<&str>, commands: &[&str]) -> ResponseBehaviors {
    ResponseBehaviors {
        wait: None,
        repeat: None,
        copy: Vec::new(),
        lookup: Vec::new(),
        decorate: decorate.map(str::to_string),
        shell_transform: strings(commands),
    }
}

fn original() -> ServedParts {
    ServedParts {
        status: 201,
        headers: lines(&[("set-cookie", &["a=1", "b=2"])]),
        body: "orig".to_string(),
    }
}

/// What a command that prints a text does, and what one that exits with an error does.
fn shell(command: &str) -> BehaviorEvent {
    match command.strip_prefix("printf ") {
        Some(output) => BehaviorEvent::Transformed { output: output.to_string() },
        None => BehaviorEvent::TransformFailed { message: "exit status: 3".to_string() },
    }
}

fn run(b: &ResponseBehaviors, strict: bool) -> BehaviorOutcome {
    let mut step = start_behaviors(original(), b, 0);
    loop {
        let current: BehaviorRun = match step {
            BehaviorStep::Done(outcome) => return outcome,
            BehaviorStep::Run(current) => current,
        };
        let event = match current.stage {
            BehaviorStage::Transform { at } => shell(&b.shell_transform[at]),
            BehaviorStage::Decorate => {
                BehaviorEvent::DecorateFailed { timed_out: false, message: "boom".to_string() }
            }
            other => panic!("nothing else is configured: {other:?}"),
        };
        step = current.resume(event, b, strict);
    }
}

fn values<'a>(parts: &'a ServedParts, name: &str) -> Option<&'a Vec<String>> {
    parts.headers.iter().find(|h| h.0 == name).map(|h| &h.1)
}

#[test]
fn a_successful_transform_is_applied_and_not_degraded() {
    match run(&behaviors(None, &["printf transformed"]), false) {
        BehaviorOutcome::Applied { parts, degraded } => {
            assert!(!degraded);
            assert_eq!(parts.body, "transformed");
            assert_eq!(parts.status, 201);
            assert_eq!(values(&parts, "set-cookie"), Some(&strings(&["a=1", "b=2"])));
        }
        BehaviorOutcome::StrictFailure(_) => panic!("nothing failed"),
    }
}

#[test]
fn a_lenient_failure_serves_the_original_marked_and_degraded() {
    match run(&behaviors(None, &["exit 3"]), false) {
        BehaviorOutcome::Applied { parts, degraded } => {
            assert!(degraded);
            assert_eq!(parts.body, "orig");
            assert_eq!(parts.status, 201);
            assert_eq!(values(&parts, "x-rift-shelltransform-error"), Some(&strings(&["true"])));
            assert_eq!(values(&parts, "set-cookie"), Some(&strings(&["a=1", "b=2"])));
        }
        BehaviorOutcome::StrictFailure(_) => panic!("lenient mode must not fail the response"),
    }
}

#[test]
fn a_strict_failure_is_a_500_carrying_the_signal_header() {
    match run(&behaviors(None, &["exit 3"]), true) {
        BehaviorOutcome::StrictFailure(response) => {
            assert_eq!(response.status, 500);
            assert_eq!(header(&response, "x-rift-shelltransform-error"), Some("true"));
            assert!(text(&response).contains("shellTransform failed (strictBehaviors)"));
        }
        BehaviorOutcome::Applied { .. } => panic!("strict mode must fail the response"),
    }
}

#[test]
fn a_failed_decorate_is_degraded_and_keeps_the_multi_value_headers() {
    let b = behaviors(Some("function (request, response) { throw new Error('boom'); }"), &[]);
    match run(&b, false) {
        BehaviorOutcome::Applied { parts, degraded } => {
            assert!(degraded);
            assert_eq!(parts.body, "orig");
            assert_eq!(parts.status, 201);
            assert_eq!(values(&parts, "x-rift-decorate-error"), Some(&strings(&["true"])));
            assert_eq!(values(&parts, "set-cookie"), Some(&strings(&["a=1", "b=2"])));
        }
        BehaviorOutcome::StrictFailure(_) => panic!("lenient mode must not fail the response"),
    }
    match run(&b, true) {
        BehaviorOutcome::StrictFailure(response) => {
            assert_eq!(response.status, 500);
            assert_eq!(header(&response, "x-rift-decorate-error"), Some("true"));
        }
        BehaviorOutcome::Applied { .. } => panic!("strict mode must fail the response"),
    }
}

#[test]
fn a_failure_stops_the_pipeline_only_in_strict_mode() {
    let b = behaviors(None, &["exit 3", "printf second"]);
    match run(&b, false) {
        BehaviorOutcome::Applied { parts, degraded } => {
            assert!(degraded);
            assert_eq!(parts.body, "second");
        }
        BehaviorOutcome::StrictFailure(_) => panic!("lenient mode must not fail"),
    }
    assert!(matches!(run(&b, true), BehaviorOutcome::StrictFailure(_)));
}

fn decorating(parts: ServedParts) -> BehaviorRun {
    BehaviorRun { stage: BehaviorStage::Decorate, parts, degraded: false }
}

#[test]
fn a_late_decorate_may_be_tried_again() {
    let b = behaviors(Some("f"), &[]);
    let late =
        || BehaviorEvent::DecorateFailed { timed_out: true, message: "too slow".to_string() };
    match decorating(original()).resume(late(), &b, true) {
        BehaviorStep::Done(BehaviorOutcome::StrictFailure(r)) => {
            assert_eq!(r.status, 504);
            assert_eq!(header(&r, "x-rift-script-timeout"), Some("true"));
            assert_eq!(message(&r), "decorate failed (strictBehaviors): too slow");
        }
        other => panic!("strict mode must fail the response: {other:?}"),
    }
    match decorating(original()).resume(late(), &b, false) {
        BehaviorStep::Done(BehaviorOutcome::Applied { parts, degraded }) => {
            assert!(degraded);
            assert!(values(&parts, "x-rift-script-timeout").is_some());
        }
        other => panic!("lenient mode must serve the response: {other:?}"),
    }
}

#[test]
fn a_decoration_keeps_cookies_unless_it_sets_its_own() {
    let b = behaviors(Some("f"), &[]);
    let mut parts = original();
    parts.headers.push(("accept".to_string(), strings(&["a", "b"])));
    assert_eq!(script_headers(&parts.headers), pairs(&[("accept", "a, b")]));
    let decorated = |headers: &[(&str, &str)]| BehaviorEvent::Decorated {
        status: 202,
        headers: pairs(headers),
        body: "new".to_string(),
    };
    match decorating(original()).resume(decorated(&[("accept", "a, b")]), &b, false) {
        BehaviorStep::Done(BehaviorOutcome::Applied { parts, degraded }) => {
            assert!(!degraded);
            assert_eq!(parts.status, 202);
            assert_eq!(parts.body, "new");
            assert_eq!(
                parts.headers,
                lines(&[("accept", &["a, b"]), ("set-cookie", &["a=1", "b=2"])])
            );
        }
        other => panic!("decoration succeeded: {other:?}"),
    }
    match decorating(original()).resume(decorated(&[("Set-Cookie", "c=3")]), &b, false) {
        BehaviorStep::Done(BehaviorOutcome::Applied { parts, .. }) => {
            assert_eq!(parts.headers, lines(&[("Set-Cookie", &["c=3"])]));
        }
        other => panic!("decoration succeeded: {other:?}"),
    }
}

#[test]
fn behaviors_run_in_order() {
    let mut b = behaviors(Some("f"), &["printf x"]);
    b.wait = Some(Json::number(5));
    b.copy = vec![Json::text("rule")];
    b.lookup = vec![Json::text("rule")];
    let substituted = || BehaviorEvent::Substituted {
        headers: Vec::new(),
        body: "filled in".to_string(),
    };
    let mut stages = Vec::new();
    let mut step = start_behaviors(original(), &b, 5);
    loop {
        let current = match step {
            BehaviorStep::Done(_) => break,
            BehaviorStep::Run(current) => current,
        };
        stages.push(current.stage);
        let event = match current.stage {
            BehaviorStage::Wait => BehaviorEvent::Waited,
            BehaviorStage::Copy | BehaviorStage::Lookup => substituted(),
            BehaviorStage::Decorate => BehaviorEvent::Decorated {
                status: 200,
                headers: Vec::new(),
                body: "d".to_string(),
            },
            BehaviorStage::Transform { at } => shell(&b.shell_transform[at]),
        };
        step = current.resume(event, &b, true);
    }
    assert_eq!(
        stages,
        vec![
            BehaviorStage::Wait,
            BehaviorStage::Copy,
            BehaviorStage::Lookup,
            BehaviorStage::Decorate,
            BehaviorStage::Transform { at: 0 },
        ]
    );
}

#[test]
fn a_disabled_imposter_turns_requests_away_uncounted() {
    let (counted, step) = arrive(false, "GET", true, false);
    assert!(!counted);
    match step {
        IntakeStep::Respond(r) => {
            assert_eq!(r.status, 503);
            assert_eq!(r.headers, disabled_response().headers);
            assert_eq!(message(&r), "Imposter is disabled");
        }
        other => panic!("turned away: {other:?}"),
    }
}

#[test]
fn preflight_requests_are_answered_where_any_origin_is_allowed() {
    match arrive(true, "options", true, false) {
        (true, IntakeStep::Respond(r)) => {
            assert_eq!(r.status, 200);
            let sealed = seal(r, true);
            assert_eq!(header(&sealed, "access-control-allow-origin"), Some("*"));
            assert_eq!(header(&sealed, "access-control-allow-headers"), Some("*"));
            assert_eq!(header(&sealed, "access-control-allow-methods"), Some("*"));
        }
        other => panic!("answered at once: {other:?}"),
    }
    assert!(matches!(arrive(true, "OPTIONS", false, false), (true, IntakeStep::Ask(_))));
}

#[test]
fn cors_headers_that_are_there_stay() {
    let r = ServedResponse {
        status: 200,
        headers: pairs(&[("Access-Control-Allow-Origin", "https://here")]),
        body: Vec::new(),
        fault: None,
    };
    let r = inject_cors_headers(r);
    assert_eq!(r.headers.len(), 3);
    assert_eq!(r.headers[0].1, "https://here");
}

#[test]
fn bodies_that_are_no_text_are_kept_as_base64() {
    let raw = vec![0xFF, 0x00, 0x10];
    let got = take_body(BodyRead::Bytes(raw.clone())).expect("taken");
    assert_eq!(got.body.as_deref(), Some("/wAQ"));
    assert_eq!(got.mode, ResponseMode::Binary);
    let parts =
        ServedParts { status: 200, headers: Vec::new(), body: got.body.expect("a body") };
    assert_eq!(finish(&parts, ResponseMode::Binary, true).body, raw, "the bytes come back");
    let empty = take_body(BodyRead::Bytes(Vec::new())).expect("taken");
    assert!(empty.body.is_none());
}

#[test]
fn the_intake_goes_from_body_to_response() {
    let step = resume_intake(
        IntakePhase::Reading { debug: false },
        IntakeEvent::Read(BodyRead::Bytes(b"x".to_vec())),
    );
    let phase = match step {
        IntakeStep::Ask(IntakePhase::Matching { body }) => IntakePhase::Matching { body },
        other => panic!("matching comes next: {other:?}"),
    };
    let step = resume_intake(phase, IntakeEvent::Matched(Some(3)));
    let phase = match step {
        IntakeStep::Ask(IntakePhase::Moving { at: 3 }) => IntakePhase::Moving { at: 3 },
        other => panic!("the scenario moves next: {other:?}"),
    };
    match resume_intake(phase, IntakeEvent::Moved) {
        IntakeStep::Ask(IntakePhase::Choosing { at: 3 }) => {}
        other => panic!("a response is chosen next: {other:?}"),
    }
    assert!(matches!(
        resume_intake(IntakePhase::Choosing { at: 3 }, IntakeEvent::Chosen(Some(1))),
        IntakeStep::Serve { at: 3, turn: 1 }
    ));
    assert!(matches!(
        resume_intake(IntakePhase::Choosing { at: 3 }, IntakeEvent::Chosen(None)),
        IntakeStep::Unmatched
    ));
    match resume_intake(
        IntakePhase::Moving { at: 3 },
        IntakeEvent::StoreFailed("down".to_string()),
    ) {
        IntakeStep::Respond(r) => {
            assert_eq!(r.status, 500);
            assert_eq!(r.body, backend_error_response("down").body);
        }
        other => panic!("an error is answered: {other:?}"),
    }
}

#[test]
fn debug_requests_are_told_apart() {
    assert!(is_debug_request(&pairs(&[("X-Rift-Debug", "TRUE")])));
    assert!(is_debug_request(&pairs(&[("x-rift-debug", "1")])));
    assert!(!is_debug_request(&pairs(&[("X-Rift-Debug", "yes")])));
    assert!(!is_debug_request(&Vec::new()));
    let step = resume_intake(
        IntakePhase::Reading { debug: true },
        IntakeEvent::Read(BodyRead::Bytes(Vec::new())),
    );
    let phase = match step {
        IntakeStep::Ask(IntakePhase::Debugging { body }) => IntakePhase::Debugging { body },
        other => panic!("debugging comes next: {other:?}"),
    };
    assert!(matches!(
        resume_intake(phase, IntakeEvent::DebugTimedOut),
        IntakeStep::Respond(r) if r.status == 504
    ));
}

#[test]
fn debug_requests_are_told_back() {
    let told = debug_request(
        "GET",
        "/x",
        "",
        &pairs(&[("X-RIFT-debug", "1"), ("Accept", "*/*")]),
        &None,
    );
    assert_eq!(told.headers, pairs(&[("Accept", "*/*")]));
    assert!(told.query.is_none());
    let none = Vec::new();
    let m = debug_match(None, &none);
    assert!(!m.matched);
    assert_eq!(m.reason, Some("No stubs configured for this imposter"));
    let stubs = vec![StubState::new(
        Stub {
            id: Some("s".to_string()),
            predicates: Vec::new(),
            responses: Vec::new(),
            scenario_name: None,
            required_scenario_state: None,
            new_scenario_state: None,
            space: None,
            route_pattern: None,
            recorded_from: None,
        },
        1,
    )];
    assert_eq!(debug_match(None, &stubs).reason, Some("No stub predicates matched the request"));
    let m = debug_match(Some(0), &stubs);
    assert!(m.matched && m.reason.is_none());
    assert_eq!(m.stub_id.as_deref(), Some("s"));
}

#[test]
fn debug_tells_the_stub_that_matches_or_all_of_them() {
    let state = |id: Option<&str>, path: &str, bodies: &[&str], slot: u64| {
        let mut fields = JsonObject::new();
        fields.insert("path".to_string(), Json::text(path));
        StubState::new(
            Stub {
                id: id.map(str::to_string),
                predicates: vec![Predicate {
                    parameters: PredicateParameters {
                        case_sensitive: None,
                        key_case_sensitive: None,
                        except: String::new(),
                        selector: None,
                    },
                    operation: PredicateOperation::Equals(fields),
                }],
                responses: bodies.iter().map(|b| fixed(ResponseMode::Text, b, None)).collect(),
                scenario_name: None,
                required_scenario_state: None,
                new_scenario_state: None,
                space: None,
                route_pattern: None,
                recorded_from: None,
            },
            slot,
        )
    };
    let path_of = |ps: &Vec<Predicate>| match &ps[0].operation {
        PredicateOperation::Equals(f) => f.get("path").map(|v| v.compared_text()),
        other => panic!("not an equals: {other:?}"),
    };
    let body_of = |r: Option<&StubResponse>| match r {
        Some(StubResponse::Is { is, .. }) => is.body.as_ref().map(|b| b.compared_text()),
        other => panic!("not a fixed response: {other:?}"),
    };
    let mut stubs = vec![state(Some("s"), "/a", &["one", "two"], 1), state(None, "/b", &[], 2)];
    let m = debug_match(Some(0), &stubs);
    assert_eq!(m.predicates.and_then(path_of).as_deref(), Some("/a"));
    assert_eq!(body_of(m.response_preview).as_deref(), Some("one"));
    assert!(m.all_stubs.is_none());
    assert!(stubs[0].get_next_response().is_some());
    let m = debug_match(Some(0), &stubs);
    assert_eq!(body_of(m.response_preview).as_deref(), Some("two"));
    assert!(debug_match(Some(1), &stubs).response_preview.is_none());
    let m = debug_match(None, &stubs);
    assert!(m.predicates.is_none() && m.response_preview.is_none());
    let all = m.all_stubs.expect("all stubs");
    let told: Vec<(usize, Option<&str>, Option<String>)> =
        all.iter().map(|s| (s.index, s.id.as_deref(), path_of(s.predicates))).collect();
    assert_eq!(
        told,
        vec![(0, Some("s"), Some("/a".to_string())), (1, None, Some("/b".to_string()))]
    );
}

fn is_response(mode: ResponseMode, body: &str) -> IsResponse {
    IsResponse {
        status_code: 201,
        headers: lines(&[("x", &["1", "2"])]),
        body: Some(Json::text(body)),
        mode,
    }
}

fn fixed(mode: ResponseMode, body: &str, rift: Option<RiftResponseExtension>) -> StubResponse {
    StubResponse::Is { is: is_response(mode, body), behaviors: None, rift }
}

fn answered(step: AnswerStep) -> ServedResponse {
    match step {
        AnswerStep::Respond(r) => r,
        AnswerStep::Ask(phase) => panic!("not answered yet: {phase:?}"),
    }
}

#[test]
fn a_fixed_response_is_served_line_by_line() {
    let response = fixed(ResponseMode::Text, "hello", None);
    let phase = match start_answer(&response) {
        AnswerStep::Ask(AnswerPhase::Substituting { parts }) => AnswerPhase::Substituting { parts },
        other => panic!("request values are put in first: {other:?}"),
    };
    let event = AnswerEvent::Rendered {
        headers: lines(&[("x", &["1", "2"])]),
        body: "hello ${now}".to_string(),
    };
    let phase = match resume_answer(phase, event, &response, false) {
        AnswerStep::Ask(phase @ AnswerPhase::Dating { .. }) => phase,
        other => panic!("dates are put in next: {other:?}"),
    };
    let r = answered(resume_answer(
        phase,
        AnswerEvent::Dated("hello today".to_string()),
        &response,
        false,
    ));
    assert_eq!(r.status, 201);
    assert_eq!(r.headers, pairs(&[("x", "1"), ("x", "2"), ("x-rift-imposter", "true")]));
    assert_eq!(text(&r), "hello today");
}

#[test]
fn rendered_headers_lose_control_characters() {
    let rift = RiftResponseExtension { fault: None, script: None, templated: true };
    let response = fixed(ResponseMode::Text, "x", Some(rift));
    let phase = match start_answer(&response) {
        AnswerStep::Ask(phase @ AnswerPhase::Templating { .. }) => phase,
        other => panic!("templates are rendered first: {other:?}"),
    };
    let event = AnswerEvent::Rendered {
        headers: lines(&[("x", &["a\r\nset-cookie: b"])]),
        body: "x".to_string(),
    };
    match resume_answer(phase, event, &response, false) {
        AnswerStep::Ask(AnswerPhase::Substituting { parts }) => {
            assert_eq!(parts.headers, lines(&[("x", &["aset-cookie: b"])]));
            assert_eq!(parts.status, 201);
        }
        other => panic!("request values are put in next: {other:?}"),
    }
    assert_eq!(sanitize_header_value("a\u{0}b\u{7f}c\u{85}d\u{a0}"), "abcd\u{a0}");
    let failed = AnswerPhase::Templating {
        parts: ServedParts { status: 200, headers: Vec::new(), body: String::new() },
    };
    let r = answered(resume_answer(
        failed,
        AnswerEvent::RenderFailed("no such function".to_string()),
        &response,
        false,
    ));
    assert_eq!(message(&r), "template rendering failed: no such function");
}

#[test]
fn a_body_that_is_no_base64_is_served_or_refused() {
    let parts =
        ServedParts { status: 200, headers: Vec::new(), body: "not base64!".to_string() };
    let lenient = finish(&parts, ResponseMode::Binary, false);
    assert_eq!(lenient.status, 200);
    assert_eq!(text(&lenient), "not base64!");
    assert_eq!(
        lenient.headers,
        pairs(&[("x-rift-imposter", "true"), ("x-rift-binary-error", "true")])
    );
    let strict = finish(&parts, ResponseMode::Binary, true);
    assert_eq!(strict.status, 500);
    assert!(message(&strict).starts_with("binary base64 decode failed (strictBehaviors): "));
}

#[test]
fn what_a_body_decoded_to_is_served() {
    let parts = || ServedParts { status: 200, headers: Vec::new(), body: "raw".to_string() };
    assert_eq!(serve_decoded(&parts(), Ok(vec![1, 2]), true).body, vec![1, 2]);
    let failed = || Err("no".to_string());
    assert_eq!(text(&serve_decoded(&parts(), failed(), false)), "raw");
    let strict = serve_decoded(&parts(), failed(), true);
    assert_eq!(message(&strict), "binary base64 decode failed (strictBehaviors): no");
    assert_eq!(bytes_or_raw("raw", Ok(vec![7])), vec![7]);
    assert_eq!(bytes_or_raw("raw", failed()), b"raw".to_vec());
}

#[test]
fn latency_applies_before_tcp() {
    let rift = RiftResponseExtension {
        fault: Some(RiftFaultConfig {
            latency: latency_fault(60),
            error: error_fault(503),
            tcp: tcp_fault("CONNECTION_RESET_BY_PEER"),
        }),
        script: None,
        templated: false,
    };
    let response = fixed(ResponseMode::Text, "x", Some(rift));
    let phase = match start_answer(&response) {
        AnswerStep::Ask(phase @ AnswerPhase::Drawing { .. }) => phase,
        other => panic!("faults are drawn first: {other:?}"),
    };
    let drawn = AnswerEvent::Drawn { latency: Some(0), tcp: true, error: true };
    let phase = match resume_answer(phase, drawn, &response, false) {
        AnswerStep::Ask(AnswerPhase::Delaying { ms: 60, tcp, error, parts }) => {
            AnswerPhase::Delaying { ms: 60, tcp, error, parts }
        }
        other => panic!("the delay comes first: {other:?}"),
    };
    let r = answered(resume_answer(phase, AnswerEvent::Slept, &response, false));
    assert_eq!(r.fault, Some(TcpFaultKind::Reset));
}

#[test]
fn drawn_delays_come_from_the_range() {
    let rift = RiftResponseExtension {
        fault: Some(RiftFaultConfig {
            latency: Some(RiftLatencyFault {
                probability_bits: ALWAYS,
                ms: None,
                min_ms: 10,
                max_ms: 20,
            }),
            error: None,
            tcp: None,
        }),
        script: None,
        templated: false,
    };
    let response = fixed(ResponseMode::Text, "x", Some(rift));
    let drawing = || AnswerPhase::Drawing {
        parts: ServedParts { status: 200, headers: Vec::new(), body: String::new() },
    };
    let drawn = AnswerEvent::Drawn { latency: Some(17), tcp: false, error: false };
    assert!(matches!(
        resume_answer(drawing(), drawn, &response, false),
        AnswerStep::Ask(AnswerPhase::Delaying { ms: 17, .. })
    ));
    let spared = AnswerEvent::Drawn { latency: None, tcp: false, error: false };
    assert!(matches!(
        resume_answer(drawing(), spared, &response, false),
        AnswerStep::Ask(AnswerPhase::Substituting { .. })
    ));
}

fn scripted(code: Option<&str>) -> StubResponse {
    StubResponse::RiftScript {
        script: RiftScriptConfig { engine: None, code: code.map(str::to_string) },
    }
}

#[test]
fn scripts_answer_in_a_responses_place() {
    assert!(matches!(
        start_answer(&scripted(Some("f"))),
        AnswerStep::Ask(AnswerPhase::Scripting)
    ));
    let unresolved = answered(start_answer(&scripted(None)));
    assert_eq!(unresolved.status, 500);
    assert_eq!(header(&unresolved, "x-rift-script-error"), Some("true"));

    let late = AnswerEvent::Decided { decision: ScriptDecision::Latency { ms: 7 }, trace: None };
    let phase = match resume_answer(AnswerPhase::Scripting, late, &scripted(Some("f")), false) {
        AnswerStep::Ask(phase @ AnswerPhase::Pausing { ms: 7, .. }) => phase,
        other => panic!("the answer waits: {other:?}"),
    };
    let r = answered(resume_answer(phase, AnswerEvent::Slept, &scripted(Some("f")), false));
    assert_eq!(
        r.headers,
        pairs(&[("x-rift-imposter", "true"), ("x-rift-script", "rhai"), ("x-rift-latency-ms", "7")])
    );

    let reset = script_response("js", ScriptDecision::Reset, &Some("[]".to_string()));
    assert_eq!(reset.fault, Some(TcpFaultKind::Reset));
    assert_eq!(header(&reset, "x-rift-script-trace"), Some("[]"));
    let passed = script_response("js", ScriptDecision::Pass, &None);
    assert_eq!((passed.status, passed.headers.len()), (200, 2));
    let error = script_response(
        "js",
        ScriptDecision::Error {
            status: 409,
            headers: pairs(&[("a", "b")]),
            body: "no".to_string(),
        },
        &None,
    );
    assert_eq!((error.status, text(&error)), (409, "no".to_string()));
    let late = script_failure_response(true, "1ms", &None);
    assert_eq!((late.status, message(&late)), (504, "Script timeout: 1ms".to_string()));
    let broken = script_failure_response(false, "oops", &None);
    assert_eq!((broken.status, message(&broken)), (500, "Script error: oops".to_string()));
}

fn reply(status: u16, headers: &[(&str, &str)], latency_ms: Option<u64>) -> RecordedResponse {
    RecordedResponse { status, headers: pairs(headers), body: b"up".to_vec(), latency_ms }
}

#[test]
fn proxied_responses_lose_what_belongs_to_the_connection() {
    let proxy = StubResponse::Proxy {
        proxy: ProxyResponse {
            to: "http://up".to_string(),
            mode: String::new(),
            predicate_generators: Vec::new(),
            add_wait_behavior: false,
            add_decorate_behavior: None,
            inject_headers: Vec::new(),
            path_rewrite: None,
        },
    };
    assert!(matches!(start_answer(&proxy), AnswerStep::Ask(AnswerPhase::Proxying)));
    let upstream = reply(203, &[("Connection", "close"), ("etag", "1")], Some(12));
    let r = answered(resume_answer(
        AnswerPhase::Proxying,
        AnswerEvent::Proxied(upstream),
        &proxy,
        false,
    ));
    assert_eq!(r.status, 203);
    assert_eq!(
        r.headers,
        pairs(&[
            ("etag", "1"),
            ("x-rift-imposter", "true"),
            ("x-rift-proxy", "true"),
            ("x-rift-proxy-latency", "12"),
        ])
    );
    let failed = answered(resume_answer(
        AnswerPhase::Proxying,
        AnswerEvent::ProxyFailed(chained_error()),
        &proxy,
        false,
    ));
    assert_eq!(failed.status, 502);
    assert_eq!(header(&failed, "x-rift-proxy-error"), Some("true"));
}

#[test]
fn injected_responses() {
    let inject = StubResponse::Inject { inject: "f".to_string(), behaviors: None };
    assert!(matches!(start_answer(&inject), AnswerStep::Ask(AnswerPhase::Injecting)));
    let event = AnswerEvent::Injected {
        status: 202,
        headers: pairs(&[("a", "b")]),
        body: "body".to_string(),
    };
    let r = answered(resume_answer(AnswerPhase::Injecting, event, &inject, false));
    assert_eq!(
        r.headers,
        pairs(&[("a", "b"), ("x-rift-imposter", "true"), ("x-rift-inject", "true")])
    );
    let event = AnswerEvent::InjectFailed { timed_out: false, message: "oops".to_string() };
    let r = answered(resume_answer(AnswerPhase::Injecting, event, &inject, false));
    assert_eq!((r.status, code(&r)), (400, "invalid injection".to_string()));
    let event = AnswerEvent::InjectFailed { timed_out: true, message: "late".to_string() };
    let r = answered(resume_answer(AnswerPhase::Injecting, event, &inject, false));
    assert_eq!((r.status, code(&r)), (504, "injection timeout".to_string()));
}

#[test]
fn injected_responses_run_behaviors() {
    let inject = StubResponse::Inject {
        inject: "f".to_string(),
        behaviors: Some(behaviors(None, &["printf made"])),
    };
    let event = AnswerEvent::Injected {
        status: 202,
        headers: pairs(&[("a", "b")]),
        body: "body".to_string(),
    };
    let phase = match resume_answer(AnswerPhase::Injecting, event, &inject, false) {
        AnswerStep::Ask(AnswerPhase::Behaving { parts }) => {
            assert_eq!(parts.headers, lines(&[("a", &["b"])]));
            AnswerPhase::Behaving { parts }
        }
        other => panic!("behaviors run next: {other:?}"),
    };
    let applied = BehaviorOutcome::Applied {
        parts: ServedParts {
            status: 202,
            headers: lines(&[("a", &["b", "c"])]),
            body: "made".to_string(),
        },
        degraded: false,
    };
    let r = answered(resume_answer(phase, AnswerEvent::Behaved(applied), &inject, false));
    assert_eq!(text(&r), "made");
    assert_eq!(
        r.headers,
        pairs(&[
            ("a", "b"),
            ("a", "c"),
            ("x-rift-imposter", "true"),
            ("x-rift-inject", "true"),
        ])
    );
}

fn unmatched_config(forward: Option<&str>, default: Option<IsResponse>) -> ImposterConfig {
    ImposterConfig {
        port: None,
        protocol: "http".to_string(),
        name: None,
        stubs: Vec::new(),
        record_requests: false,
        allow_cors: false,
        strict_behaviors: false,
        default_forward: forward.map(str::to_string),
        default_response: default,
        rift: None,
    }
}

#[test]
fn unmatched_requests() {
    let forwarding =
        unmatched_config(Some("http://up"), Some(is_response(ResponseMode::Text, "d")));
    assert!(matches!(start_unmatched(&forwarding), UnmatchedStep::Forward));
    let r = forward_response(Ok(reply(200, &[("Upgrade", "x")], None)));
    assert_eq!(
        r.headers,
        pairs(&[("x-rift-imposter", "true"), ("x-rift-default-forward", "true")])
    );
    let r = forward_response(Err(strings(&["refused", "why"])));
    assert_eq!(message(&r), "defaultForward upstream error: refused");

    let texted = unmatched_config(None, Some(is_response(ResponseMode::Text, "d")));
    match start_unmatched(&texted) {
        UnmatchedStep::Date { body } => assert_eq!(body, "d"),
        other => panic!("dates are put in: {other:?}"),
    }
    let raw = is_response(ResponseMode::Binary, "/wAQ");
    assert_eq!(default_response(&raw, "/wAQ").body, vec![0xFF, 0x00, 0x10]);
    match start_unmatched(&unmatched_config(None, Some(raw))) {
        UnmatchedStep::Respond(r) => {
            assert_eq!(r.status, 201);
            assert_eq!(r.body, vec![0xFF, 0x00, 0x10]);
            assert_eq!(header(&r, "x-rift-default-response"), Some("true"));
        }
        other => panic!("the default is served: {other:?}"),
    }
    match start_unmatched(&unmatched_config(None, None)) {
        UnmatchedStep::Respond(r) => {
            assert_eq!(r.status, 200);
            assert_eq!(header(&r, "x-rift-no-match"), Some("true"));
            assert!(r.body.is_empty());
        }
        other => panic!("nothing is served: {other:?}"),
    }
}

#[test]
fn configured_bodies_as_text() {
    assert_eq!(body_text(&Some(Json::text("as it is"))), "as it is");
    assert_eq!(body_text(&Json::parse(r#"{"a": [1]}"#)), r#"{"a":[1]}"#);
    assert_eq!(body_text(&None), "");
}

#[test]
fn requests_are_recorded_where_that_is_asked() {
    let body = RequestBody { body: Some("b".to_string()), mode: ResponseMode::Text };
    let sent = lines(&[("Accept", &["a", "b"])]);
    let told = |on: bool| request_to_record(on, "1.2.3.4:5", "GET", "/x", "a=1&b", &sent, &body, "t");
    assert!(told(false).is_none());
    let r = told(true).expect("recorded");
    assert_eq!((r.method.as_str(), r.path.as_str(), r.timestamp.as_str()), ("GET", "/x", "t"));
    assert_eq!(r.request_from, "1.2.3.4:5");
    assert_eq!(r.query, pairs(&[("a", "1"), ("b", "")]));
    assert_eq!(r.headers, sent);
    assert_eq!(r.body.as_deref(), Some("b"));
    assert!(r.match_outcome.is_none() && r.status.is_none() && r.latency_ms.is_none());
}
