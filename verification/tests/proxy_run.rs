//! One proxied request, step by step.

use rift_mock_core::json::Json;
use rift_mock_core::proxy::{extract_proxy_mode, ProxyMode};
use rift_mock_core::proxy_run::{
    proxy_step, ClaimAnswer, ProxyAction, ProxyEvent, ProxyPhase, UpstreamResponse,
};
use rift_mock_core::types::{ProxyResponse, Stub, StubResponse};

fn config(mode: &str) -> ProxyResponse {
    ProxyResponse {
        to: "http://up".to_string(),
        mode: mode.to_string(),
        predicate_generators: Vec::new(),
        add_wait_behavior: false,
        add_decorate_behavior: None,
        inject_headers: Vec::new(),
        path_rewrite: None,
    }
}

fn proxy_to(mode: &str) -> Stub {
    Stub {
        id: None,
        predicates: Vec::new(),
        responses: vec![StubResponse::Proxy { proxy: config(mode) }],
        scenario_name: None,
        required_scenario_state: None,
        new_scenario_state: None,
        space: None,
        route_pattern: None,
        recorded_from: None,
    }
}

#[test]
fn the_first_proxy_sets_the_mode() {
    assert!(matches!(
        extract_proxy_mode(&vec![proxy_to("proxyAlways"), proxy_to("proxyOnce")]),
        ProxyMode::ProxyAlways
    ));
    assert!(matches!(
        extract_proxy_mode(&vec![proxy_to("proxyTransparent")]),
        ProxyMode::ProxyTransparent
    ));
    assert!(matches!(extract_proxy_mode(&Vec::new()), ProxyMode::ProxyTransparent));
}

fn upstream() -> UpstreamResponse {
    UpstreamResponse {
        status: 201,
        headers: vec![("etag".to_string(), "1".to_string())],
        body: b"up".to_vec(),
        latency_ms: 9,
    }
}

#[test]
fn a_recorded_response_is_replayed() {
    let c = config("proxyOnce");
    let recorded = ProxyEvent::ClaimAnswered(ClaimAnswer::AlreadyRecorded);
    let (phase, action) = proxy_step(ProxyPhase::Claiming, recorded, &c);
    assert!(matches!(action, ProxyAction::LookUp));
    let (phase, action) = proxy_step(phase, ProxyEvent::LookedUp(None), &c);
    assert!(matches!(action, ProxyAction::Forward), "a lost recording is fetched again");
    let (_, action) = proxy_step(phase, ProxyEvent::Forwarded(Ok(upstream())), &c);
    assert!(matches!(action, ProxyAction::Reply(r) if r.status == 201 && r.latency_ms.is_none()));
}

#[test]
fn a_failed_call_gives_its_claim_back() {
    let c = config("proxyOnce");
    let claimed = ProxyEvent::ClaimAnswered(ClaimAnswer::Claimed);
    let (phase, _) = proxy_step(ProxyPhase::Claiming, claimed, &c);
    let chain = vec!["refused".to_string(), "why".to_string()];
    let (phase, action) = proxy_step(phase, ProxyEvent::Forwarded(Err(chain.clone())), &c);
    assert!(matches!(action, ProxyAction::Release));
    let (_, action) = proxy_step(phase, ProxyEvent::Released, &c);
    assert!(matches!(action, ProxyAction::Fail(e) if e == chain));
}

#[test]
fn stubs_are_made_of_what_was_recorded() {
    let mut c = config("");
    c.add_wait_behavior = true;
    c.predicate_generators = vec![Json::text("generator")];
    let claimed = ProxyEvent::ClaimAnswered(ClaimAnswer::Claimed);
    let (phase, _) = proxy_step(ProxyPhase::Claiming, claimed, &c);
    let (phase, action) = proxy_step(phase, ProxyEvent::Forwarded(Ok(upstream())), &c);
    assert!(matches!(action, ProxyAction::Record(r) if r.latency_ms == Some(9)));
    let (phase, action) = proxy_step(phase, ProxyEvent::Recorded(true), &c);
    assert!(matches!(action, ProxyAction::Generate));
    let (phase, action) = proxy_step(phase, ProxyEvent::Generated(None), &c);
    match action {
        ProxyAction::Place { mode, latency_ms } => {
            assert_eq!((mode.as_str(), latency_ms), ("proxyOnce", Some(9)));
        }
        _ => panic!("a stub is placed"),
    }
    let (_, action) = proxy_step(phase, ProxyEvent::Placed, &c);
    assert!(matches!(action, ProxyAction::Reply(_)));
}

#[test]
fn a_broken_generator_makes_no_stub() {
    let mut c = config("proxyAlways");
    c.predicate_generators = vec![Json::text("generator")];
    let busy = ProxyEvent::ClaimAnswered(ClaimAnswer::InFlight);
    let (phase, _) = proxy_step(ProxyPhase::Claiming, busy, &c);
    let (phase, action) = proxy_step(phase, ProxyEvent::Forwarded(Ok(upstream())), &c);
    assert!(matches!(action, ProxyAction::Generate), "nothing is recorded without a claim");
    let broken = ProxyEvent::Generated(Some("error".to_string()));
    let (_, action) = proxy_step(phase, broken, &c);
    match action {
        ProxyAction::Reply(r) => assert!(r
            .headers
            .contains(&("x-rift-generator-error".to_string(), "error".to_string()))),
        _ => panic!("the answer is served"),
    }
}
