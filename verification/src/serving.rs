//! One request from its arrival to its answer, step by step.
//!
//! Reading the body, matching, upstream calls, scripts, templates and sleeping happen outside;
//! what is done next, and what is answered, is decided here. A request passes through the intake,
//! and then either through the answer of the response that is served, or through the answer that
//! unmatched requests get.

use crate::delivery;
use crate::delivery::{BodyRead, RequestBody};
use crate::fault;
use crate::fault::TcpFaultKind;
use crate::lookup;
use crate::pipeline;
use crate::pipeline::{BehaviorOutcome, PartsModel, ServedParts};
use crate::proxy_run;
use crate::proxy_run::RecordedResponse;
use crate::query;
use crate::record;
use crate::record::{RecordModel, RecordedRequest};
use crate::responses;
use crate::responses::{MatcherFailure, ResponseModel, ServedResponse};
use crate::text;
use crate::types::{
    ImposterConfig, ResponseMode, RiftFaultConfig, RiftLatencyFault,
    RiftScriptConfig, StubResponse,
};
use vstd::prelude::*;
use vstd::utf8::*;

verus! {

/// What a request is being worked on for, before a response is chosen.
#[derive(Debug)]
pub enum IntakePhase {
    /// Its body is being read.
    Reading { debug: bool },
    /// The client asked what would match.
    Debugging { body: RequestBody },
    Matching { body: RequestBody },
    /// The scenario of the matched stub moves on.
    Moving { at: usize },
    /// The matched stub's response whose turn it is, is looked for.
    Choosing { at: usize },
}

/// What the work on a request came to.
#[derive(Debug)]
pub enum IntakeEvent {
    Read(BodyRead),
    Debugged(ServedResponse),
    /// Finding out what would match broke off.
    DebugBroke,
    DebugTimedOut,
    /// The position of the stub that matches, if one does.
    Matched(Option<usize>),
    MatchFailed(MatcherFailure),
    Moved,
    /// The position of the response whose turn it is; a stub without responses has none.
    Chosen(Option<usize>),
    /// A store of the imposter failed.
    StoreFailed(String),
}

/// What comes next for a request.
#[derive(Debug)]
pub enum IntakeStep {
    Ask(IntakePhase),
    Respond(ServedResponse),
    /// This response of this stub is served.
    Serve { at: usize, turn: usize },
    Unmatched,
}

/// A request body as contracts see it.
pub open spec fn body_model(b: RequestBody) -> (Option<Seq<char>>, ResponseMode) {
    (text::optional_text(b.body), b.mode)
}

/// A phase of the intake as contracts see it.
pub enum IntakePhaseModel {
    Reading { debug: bool },
    Debugging { body: (Option<Seq<char>>, ResponseMode) },
    Matching { body: (Option<Seq<char>>, ResponseMode) },
    Moving { at: usize },
    Choosing { at: usize },
}

/// What comes next for a request, as contracts see it.
pub enum IntakeStepModel {
    Ask(IntakePhaseModel),
    Respond(ResponseModel),
    Serve { at: usize, turn: usize },
    Unmatched,
}

impl IntakePhase {
    /// The phase as contracts see it.
    pub open spec fn view(&self) -> IntakePhaseModel {
        match self {
            IntakePhase::Reading { debug } => IntakePhaseModel::Reading { debug: *debug },
            IntakePhase::Debugging { body } => IntakePhaseModel::Debugging {
                body: body_model(*body),
            },
            IntakePhase::Matching { body } => IntakePhaseModel::Matching {
                body: body_model(*body),
            },
            IntakePhase::Moving { at } => IntakePhaseModel::Moving { at: *at },
            IntakePhase::Choosing { at } => IntakePhaseModel::Choosing { at: *at },
        }
    }
}

impl IntakeStep {
    /// The step as contracts see it.
    pub open spec fn view(&self) -> IntakeStepModel {
        match self {
            IntakeStep::Ask(phase) => IntakeStepModel::Ask(phase@),
            IntakeStep::Respond(r) => IntakeStepModel::Respond(r@),
            IntakeStep::Serve { at, turn } => IntakeStepModel::Serve { at: *at, turn: *turn },
            IntakeStep::Unmatched => IntakeStepModel::Unmatched,
        }
    }
}

/// How a request is taken in: a disabled imposter turns it away, and where any origin is allowed a
/// preflight request is answered at once.
pub open spec fn taken_in(
    enabled: bool,
    method: Seq<char>,
    allow_cors: bool,
    debug: bool,
) -> IntakeStepModel {
    if !enabled {
        IntakeStepModel::Respond(responses::disabled())
    } else if text::text_eq(method, "OPTIONS"@, false) && allow_cors {
        IntakeStepModel::Respond(responses::preflight())
    } else {
        IntakeStepModel::Ask(IntakePhaseModel::Reading { debug })
    }
}

/// Takes a request in. The first result is whether it counts; a request to a disabled imposter
/// does not.
pub fn arrive(enabled: bool, method: &str, allow_cors: bool, debug: bool) -> (r: (bool, IntakeStep))
    ensures
        r.0 == enabled,
        r.1@ == taken_in(enabled, method@, allow_cors, debug),
{
    if !enabled {
        return (false, IntakeStep::Respond(responses::disabled_response()));
    }
    if allow_cors && text::texts_equal(method, "OPTIONS", false) {
        return (true, IntakeStep::Respond(responses::preflight_response()));
    }
    (true, IntakeStep::Ask(IntakePhase::Reading { debug }))
}

/// Whether an event answers a phase of the intake.
pub open spec fn intake_answers(phase: IntakePhase, event: IntakeEvent) -> bool {
    match phase {
        IntakePhase::Reading { debug: _ } => event is Read,
        IntakePhase::Debugging { body: _ } => event is Debugged || event is DebugBroke
            || event is DebugTimedOut,
        IntakePhase::Matching { body: _ } => event is Matched || event is MatchFailed,
        IntakePhase::Moving { at: _ } => event is Moved || event is StoreFailed,
        IntakePhase::Choosing { at: _ } => event is Chosen || event is StoreFailed,
    }
}

/// What a request is answered whose body was not taken.
pub open spec fn refused_body(read: BodyRead) -> Option<ResponseModel> {
    match read {
        BodyRead::Bytes(bytes) => if bytes@.len() <= responses::MAX_REQUEST_BODY_SIZE {
            None
        } else {
            Some(responses::too_large())
        },
        BodyRead::TooLarge => Some(responses::too_large()),
        BodyRead::Failed => Some(responses::failure(400, "Failed to read request body"@)),
    }
}

/// What comes after an event of the intake.
pub open spec fn intake(phase: IntakePhase, event: IntakeEvent) -> IntakeStepModel {
    match (phase, event) {
        (IntakePhase::Reading { debug }, IntakeEvent::Read(read)) => match refused_body(read) {
            Some(r) => IntakeStepModel::Respond(r),
            None => {
                let body = delivery::body_of(read->Bytes_0@);
                if debug {
                    IntakeStepModel::Ask(IntakePhaseModel::Debugging { body })
                } else {
                    IntakeStepModel::Ask(IntakePhaseModel::Matching { body })
                }
            },
        },
        (_, IntakeEvent::Debugged(r)) => IntakeStepModel::Respond(r@),
        (_, IntakeEvent::DebugBroke) => IntakeStepModel::Respond(
            responses::failure(500, "Debug matching failed"@),
        ),
        (_, IntakeEvent::DebugTimedOut) => IntakeStepModel::Respond(responses::debug_timeout()),
        (_, IntakeEvent::Matched(Some(at))) => IntakeStepModel::Ask(IntakePhaseModel::Moving { at }),
        (_, IntakeEvent::Matched(None)) => IntakeStepModel::Unmatched,
        (_, IntakeEvent::MatchFailed(e)) => IntakeStepModel::Respond(responses::matcher_failure(e)),
        (IntakePhase::Moving { at }, IntakeEvent::Moved) => IntakeStepModel::Ask(
            IntakePhaseModel::Choosing { at },
        ),
        (IntakePhase::Choosing { at }, IntakeEvent::Chosen(Some(turn))) => IntakeStepModel::Serve {
            at,
            turn,
        },
        (_, IntakeEvent::StoreFailed(m)) => IntakeStepModel::Respond(responses::failure(500, m@)),
        _ => IntakeStepModel::Unmatched,
    }
}

/// What comes after an event of the intake.
pub fn resume_intake(phase: IntakePhase, event: IntakeEvent) -> (r: IntakeStep)
    requires
        intake_answers(phase, event),
    ensures
        r@ == intake(phase, event),
{
    match event {
        IntakeEvent::Read(read) => {
            let debug: bool = match phase {
                IntakePhase::Reading { debug } => debug,
                _ => false,
            };
            match delivery::take_body(read) {
                Ok(body) => if debug {
                    IntakeStep::Ask(IntakePhase::Debugging { body })
                } else {
                    IntakeStep::Ask(IntakePhase::Matching { body })
                },
                Err(r) => IntakeStep::Respond(r),
            }
        },
        IntakeEvent::Debugged(r) => IntakeStep::Respond(r),
        IntakeEvent::DebugBroke => IntakeStep::Respond(responses::debug_matching_error_response()),
        IntakeEvent::DebugTimedOut => IntakeStep::Respond(
            responses::debug_matching_timeout_response(),
        ),
        IntakeEvent::Matched(Some(at)) => IntakeStep::Ask(IntakePhase::Moving { at }),
        IntakeEvent::Matched(None) => IntakeStep::Unmatched,
        IntakeEvent::MatchFailed(e) => IntakeStep::Respond(responses::matcher_error_response(&e)),
        IntakeEvent::Moved => match phase {
            IntakePhase::Moving { at } => IntakeStep::Ask(IntakePhase::Choosing { at }),
            _ => IntakeStep::Unmatched,
        },
        IntakeEvent::Chosen(turn) => match (phase, turn) {
            (IntakePhase::Choosing { at }, Some(turn)) => IntakeStep::Serve { at, turn },
            _ => IntakeStep::Unmatched,
        },
        IntakeEvent::StoreFailed(m) => IntakeStep::Respond(
            responses::backend_error_response(m.as_str()),
        ),
    }
}

/// How far the intake is along.
pub open spec fn intake_rank(phase: IntakePhaseModel) -> nat {
    match phase {
        IntakePhaseModel::Reading { debug: _ } => 0,
        IntakePhaseModel::Debugging { body: _ } => 1,
        IntakePhaseModel::Matching { body: _ } => 1,
        IntakePhaseModel::Moving { at: _ } => 2,
        IntakePhaseModel::Choosing { at: _ } => 3,
    }
}

/// Every event brings the intake nearer to its end: no phase comes twice.
pub proof fn law_every_intake_ends(phase: IntakePhase, event: IntakeEvent)
    requires
        intake_answers(phase, event),
    ensures
        (match intake(phase, event) {
            IntakeStepModel::Ask(next) => intake_rank(phase@) < intake_rank(next) <= 3,
            _ => true,
        }),
{
}

/// Where looking for a stub, or a store, failed, the request fails with it: it is never taken for
/// one that no stub matches.
pub proof fn law_a_failure_is_no_mismatch(phase: IntakePhase, event: IntakeEvent)
    requires
        intake_answers(phase, event),
        event is MatchFailed || event is StoreFailed,
    ensures
        intake(phase, event) matches IntakeStepModel::Respond(r) && r.status >= 400,
{
}

/// The value of the header that asks for debugging, where it is there.
pub open spec fn debug_value(headers: Seq<(Seq<char>, Seq<char>)>) -> Option<Seq<char>> {
    match lookup::find_entry(headers, "X-Rift-Debug"@, true) {
        Some(v) => Some(v),
        None => lookup::find_entry(headers, "x-rift-debug"@, true),
    }
}

/// Whether a request asks what would match, in place of a response.
pub open spec fn asks_debug(headers: Seq<(Seq<char>, Seq<char>)>) -> bool {
    match debug_value(headers) {
        Some(v) => text::text_eq(v, "true"@, false) || v == "1"@,
        None => false,
    }
}

/// Whether a request asks what would match, in place of a response.
pub fn is_debug_request(headers: &Vec<(String, String)>) -> (r: bool)
    ensures
        r == asks_debug(lookup::pairs(headers@)),
{
    let value: Option<&String> = match lookup::find(headers, "X-Rift-Debug", true) {
        Some(v) => Some(v),
        None => lookup::find(headers, "x-rift-debug", true),
    };
    match value {
        Some(v) => text::texts_equal(v.as_str(), "true", false) || text::same_text(v.as_str(), "1"),
        None => false,
    }
}

/// What a script decided.
#[derive(Debug)]
pub enum ScriptDecision {
    /// Nothing is wrong.
    Pass,
    /// The answer comes late.
    Latency { ms: u64 },
    /// This is answered.
    Error { status: u16, headers: Vec<(String, String)>, body: String },
    /// The connection is reset.
    Reset,
}

/// The headers with what a script logged, where that is kept.
pub open spec fn traced(
    headers: Seq<(Seq<char>, Seq<char>)>,
    trace: Option<Seq<char>>,
) -> Seq<(Seq<char>, Seq<char>)> {
    match trace {
        Some(t) => headers.push(("x-rift-script-trace"@, t)),
        None => headers,
    }
}

/// What a script's decision is answered with.
pub open spec fn script_answer(
    engine: Seq<char>,
    decision: ScriptDecision,
    trace: Option<Seq<char>>,
) -> ResponseModel {
    let by = ("x-rift-script"@, engine);
    match decision {
        ScriptDecision::Pass => responses::plain(
            200,
            traced(seq![responses::imposter_flag(), by], trace),
            Seq::empty(),
        ),
        ScriptDecision::Latency { ms } => responses::plain(
            200,
            traced(
                seq![
                    responses::imposter_flag(),
                    by,
                    ("x-rift-latency-ms"@, text::decimal(ms as nat)),
                ],
                trace,
            ),
            Seq::empty(),
        ),
        ScriptDecision::Error { status, headers, body } => responses::plain(
            status,
            traced(lookup::pairs(headers@).push(responses::imposter_flag()).push(by), trace),
            encode_utf8(body@),
        ),
        ScriptDecision::Reset => ResponseModel {
            status: 502,
            headers: traced(seq![responses::imposter_flag(), by], trace),
            body: Seq::empty(),
            fault: Some(TcpFaultKind::Reset),
        },
    }
}

/// What is answered where a script failed; one that took too long may be tried again.
pub open spec fn script_failure(
    timed_out: bool,
    message: Seq<char>,
    trace: Option<Seq<char>>,
) -> ResponseModel {
    let failed = seq![responses::imposter_flag(), responses::flag("x-rift-script-error"@)];
    if timed_out {
        responses::plain(
            504,
            traced(failed.push(responses::flag("x-rift-script-timeout"@)), trace).push(
                responses::json_type(),
            ),
            responses::status_bytes(504, "Script timeout: "@ + message),
        )
    } else {
        responses::plain(
            500,
            traced(failed, trace).push(responses::json_type()),
            responses::status_bytes(500, "Script error: "@ + message),
        )
    }
}

/// What is answered where a script's source was not read when the imposter was set up.
pub open spec fn unresolved_script() -> ResponseModel {
    responses::marked_failure(
        500,
        "x-rift-script-error"@,
        "script not resolved: `file:`/`ref:` sources must be resolved before serving"@,
    )
}

fn push_line(headers: Vec<(String, String)>, name: &str, value: &str) -> (r: Vec<(String, String)>)
    ensures
        lookup::pairs(r@) == lookup::pairs(headers@).push((name@, value@)),
{
    let mut out = headers;
    let ghost had = out@;
    out.push((name.to_owned(), value.to_owned()));
    proof {
        assert(lookup::pairs(out@) =~= lookup::pairs(had).push((name@, value@)));
    }
    out
}

fn no_lines() -> (r: Vec<(String, String)>)
    ensures
        lookup::pairs(r@) == Seq::<(Seq<char>, Seq<char>)>::empty(),
{
    let out: Vec<(String, String)> = Vec::new();
    proof {
        assert(lookup::pairs(out@) =~= Seq::<(Seq<char>, Seq<char>)>::empty());
    }
    out
}

fn push_trace(headers: Vec<(String, String)>, trace: &Option<String>) -> (r: Vec<(String, String)>)
    ensures
        lookup::pairs(r@) == traced(lookup::pairs(headers@), text::optional_text(*trace)),
{
    match trace {
        Some(t) => push_line(headers, "x-rift-script-trace", t.as_str()),
        None => headers,
    }
}

/// What a script's decision is answered with.
pub fn script_response(engine: &str, decision: ScriptDecision, trace: &Option<String>) -> (r:
    ServedResponse)
    ensures
        r@ == script_answer(engine@, decision, text::optional_text(*trace)),
{
    match decision {
        ScriptDecision::Error { status, headers, body } => {
            let lines = push_line(headers, "x-rift-imposter", "true");
            let lines = push_trace(push_line(lines, "x-rift-script", engine), trace);
            ServedResponse { status, headers: lines, body: fault::bytes_of(body.as_str()), fault: None }
        },
        _ => {
            let lines = push_line(no_lines(), "x-rift-imposter", "true");
            let lines = push_line(lines, "x-rift-script", engine);
            let lines = match decision {
                ScriptDecision::Latency { ms } => push_line(
                    lines,
                    "x-rift-latency-ms",
                    text::decimal_text(ms).as_str(),
                ),
                _ => lines,
            };
            proof {
                let by = ("x-rift-script"@, engine@);
                match decision {
                    ScriptDecision::Latency { ms } => {
                        assert(lookup::pairs(lines@) =~= seq![
                            responses::imposter_flag(),
                            by,
                            ("x-rift-latency-ms"@, text::decimal(ms as nat)),
                        ]);
                    },
                    _ => {
                        assert(lookup::pairs(lines@) =~= seq![responses::imposter_flag(), by]);
                    },
                }
            }
            let lines = push_trace(lines, trace);
            let body: Vec<u8> = Vec::new();
            proof {
                assert(body@ =~= Seq::<u8>::empty());
            }
            match decision {
                ScriptDecision::Reset => ServedResponse {
                    status: 502,
                    headers: lines,
                    body,
                    fault: Some(TcpFaultKind::Reset),
                },
                _ => ServedResponse { status: 200, headers: lines, body, fault: None },
            }
        },
    }
}

/// What is answered where a script failed.
pub fn script_failure_response(timed_out: bool, message: &str, trace: &Option<String>) -> (r:
    ServedResponse)
    ensures
        r@ == script_failure(timed_out, message@, text::optional_text(*trace)),
{
    let lines = push_line(no_lines(), "x-rift-imposter", "true");
    let lines = push_line(lines, "x-rift-script-error", "true");
    proof {
        assert(lookup::pairs(lines@) =~= seq![
            responses::imposter_flag(),
            responses::flag("x-rift-script-error"@),
        ]);
    }
    let lines = if timed_out {
        push_line(lines, "x-rift-script-timeout", "true")
    } else {
        lines
    };
    let lines = push_line(push_trace(lines, trace), "content-type", "application/json");
    let mut m: String = if timed_out {
        "Script timeout: ".to_owned()
    } else {
        "Script error: ".to_owned()
    };
    m.append(message);
    let status: u16 = if timed_out {
        504
    } else {
        500
    };
    ServedResponse {
        status,
        headers: lines,
        body: responses::error_body(status, m.as_str()),
        fault: None,
    }
}

/// How long a latency fault delays: a fixed time, or one drawn from a range.
pub open spec fn delay(latency: RiftLatencyFault, drawn: u64) -> u64 {
    match latency.ms {
        Some(ms) => ms,
        None => if latency.max_ms > latency.min_ms {
            drawn
        } else {
            latency.min_ms
        },
    }
}

/// How long the configured faults delay. `drawn` is the number drawn from the range where latency
/// strikes.
pub open spec fn delay_of(config: RiftFaultConfig, drawn: Option<u64>) -> u64 {
    match (config.latency, drawn) {
        (Some(latency), Some(n)) => delay(latency, n),
        _ => 0,
    }
}

fn fault_delay(config: &RiftFaultConfig, drawn: Option<u64>) -> (r: u64)
    ensures
        r == delay_of(*config, drawn),
{
    match (&config.latency, drawn) {
        (Some(latency), Some(n)) => match latency.ms {
            Some(ms) => ms,
            None => if latency.max_ms > latency.min_ms {
                n
            } else {
                latency.min_ms
            },
        },
        _ => 0,
    }
}

/// The connection fault that strikes, by a name that stands for one.
pub open spec fn tcp_strike(config: RiftFaultConfig, tcp: bool) -> Option<TcpFaultKind> {
    match config.tcp {
        Some(t) => if tcp {
            fault::fault_named(t.kind@)
        } else {
            None
        },
        None => None,
    }
}

/// What takes a response's place where faults strike. A connection fault comes before an error;
/// one with an unknown name is passed over.
pub open spec fn struck(config: RiftFaultConfig, tcp: bool, error: bool) -> Option<ResponseModel> {
    match (tcp_strike(config, tcp), config.error) {
        (Some(kind), _) => Some(
            ResponseModel {
                status: 502,
                headers: seq![("x-rift-fault"@, config.tcp->0.kind@)],
                body: Seq::empty(),
                fault: Some(kind),
            },
        ),
        (None, Some(e)) => if error {
            Some(
                responses::plain(
                    e.status,
                    lookup::pairs(e.headers@).push(responses::imposter_flag()).push(
                        ("x-rift-fault"@, "error"@),
                    ),
                    match e.body {
                        Some(b) => encode_utf8(b@),
                        None => Seq::empty(),
                    },
                ),
            )
        } else {
            None
        },
        (None, None) => None,
    }
}

/// What takes a response's place where faults strike; `tcp` and `error` say which of them were
/// drawn.
pub fn fault_response(config: &RiftFaultConfig, tcp: bool, error: bool) -> (r: Option<ServedResponse>)
    ensures
        r is Some == struck(*config, tcp, error) is Some,
        r is Some ==> r->0@ == struck(*config, tcp, error)->0,
{
    let body: Vec<u8> = Vec::new();
    proof {
        assert(body@ =~= Seq::<u8>::empty());
    }
    if tcp {
        if let Some(t) = &config.tcp {
            if let Some(kind) = TcpFaultKind::parse(t.kind.as_str()) {
                let headers = push_line(no_lines(), "x-rift-fault", t.kind.as_str());
                proof {
                    assert(lookup::pairs(headers@) =~= seq![("x-rift-fault"@, t.kind@)]);
                }
                return Some(ServedResponse { status: 502, headers, body, fault: Some(kind) });
            }
        }
    }
    if error {
        if let Some(e) = &config.error {
            let headers = push_line(lookup::copy_list(&e.headers), "x-rift-imposter", "true");
            let headers = push_line(headers, "x-rift-fault", "error");
            let body: Vec<u8> = match &e.body {
                Some(b) => fault::bytes_of(b.as_str()),
                None => body,
            };
            return Some(ServedResponse { status: e.status, headers, body, fault: None });
        }
    }
    None
}

/// Where both strike, the connection fault comes first; an error is answered only where no
/// connection fault with a known name strikes.
pub proof fn law_connection_faults_come_first(config: RiftFaultConfig, tcp: bool, error: bool)
    ensures
        tcp_strike(config, tcp) is Some ==> struck(config, tcp, error) is Some && struck(
            config,
            tcp,
            error,
        )->0.fault == tcp_strike(config, tcp),
        tcp_strike(config, tcp) is None ==> struck(config, tcp, error) == struck(
            config,
            false,
            error,
        ),
        struck(config, tcp, error) is Some && struck(config, tcp, error)->0.fault is None ==> error
            && config.error is Some,
        struck(config, false, false) is None,
{
}

/// What a chosen response is being worked on for.
#[derive(Debug)]
pub enum AnswerPhase {
    Proxying,
    Injecting,
    Scripting,
    /// This is answered once the time is over.
    Pausing { ms: u64, answer: ServedResponse },
    /// It is drawn which faults strike.
    Drawing { parts: ServedParts },
    /// A latency fault strikes.
    Delaying { ms: u64, tcp: bool, error: bool, parts: ServedParts },
    /// Template functions are put in.
    Templating { parts: ServedParts },
    /// Request values are put in.
    Substituting { parts: ServedParts },
    /// Behaviors run.
    Behaving { parts: ServedParts },
    /// Dates are put in.
    Dating { parts: ServedParts },
}

/// What the work on a chosen response came to.
#[derive(Debug)]
pub enum AnswerEvent {
    Proxied(RecordedResponse),
    /// Why the upstream could not be reached, followed by what lies behind that.
    ProxyFailed(Vec<String>),
    Injected { status: u16, headers: Vec<(String, String)>, body: String },
    InjectFailed { timed_out: bool, message: String },
    Decided { decision: ScriptDecision, trace: Option<String> },
    ScriptFailed { timed_out: bool, message: String, trace: Option<String> },
    /// A store of the imposter failed.
    StoreFailed(String),
    Slept,
    /// Which faults strike, and the delay drawn where latency does.
    Drawn { latency: Option<u64>, tcp: bool, error: bool },
    Rendered { headers: Vec<(String, Vec<String>)>, body: String },
    RenderFailed(String),
    Behaved(BehaviorOutcome),
    Dated(String),
}

/// What comes next for a chosen response.
#[derive(Debug)]
pub enum AnswerStep {
    Ask(AnswerPhase),
    Respond(ServedResponse),
}

/// A phase of an answer as contracts see it.
pub enum AnswerPhaseModel {
    Proxying,
    Injecting,
    Scripting,
    Pausing { ms: u64, answer: ResponseModel },
    Drawing { parts: PartsModel },
    Delaying { ms: u64, tcp: bool, error: bool, parts: PartsModel },
    Templating { parts: PartsModel },
    Substituting { parts: PartsModel },
    Behaving { parts: PartsModel },
    Dating { parts: PartsModel },
}

/// What comes next for a chosen response, as contracts see it.
pub enum AnswerStepModel {
    Ask(AnswerPhaseModel),
    Respond(ResponseModel),
}

impl AnswerPhase {
    /// The phase as contracts see it.
    pub open spec fn view(&self) -> AnswerPhaseModel {
        match self {
            AnswerPhase::Proxying => AnswerPhaseModel::Proxying,
            AnswerPhase::Injecting => AnswerPhaseModel::Injecting,
            AnswerPhase::Scripting => AnswerPhaseModel::Scripting,
            AnswerPhase::Pausing { ms, answer } => AnswerPhaseModel::Pausing {
                ms: *ms,
                answer: answer@,
            },
            AnswerPhase::Drawing { parts } => AnswerPhaseModel::Drawing { parts: parts@ },
            AnswerPhase::Delaying { ms, tcp, error, parts } => AnswerPhaseModel::Delaying {
                ms: *ms,
                tcp: *tcp,
                error: *error,
                parts: parts@,
            },
            AnswerPhase::Templating { parts } => AnswerPhaseModel::Templating { parts: parts@ },
            AnswerPhase::Substituting { parts } => AnswerPhaseModel::Substituting { parts: parts@ },
            AnswerPhase::Behaving { parts } => AnswerPhaseModel::Behaving { parts: parts@ },
            AnswerPhase::Dating { parts } => AnswerPhaseModel::Dating { parts: parts@ },
        }
    }
}

impl AnswerStep {
    /// The step as contracts see it.
    pub open spec fn view(&self) -> AnswerStepModel {
        match self {
            AnswerStep::Ask(phase) => AnswerStepModel::Ask(phase@),
            AnswerStep::Respond(r) => AnswerStepModel::Respond(r@),
        }
    }
}

/// The script that answers in a response's place.
pub open spec fn script_of(response: StubResponse) -> Option<RiftScriptConfig> {
    match response {
        StubResponse::RiftScript { script } => Some(script),
        StubResponse::Is { is: _, behaviors: _, rift: Some(x) } => x.script,
        _ => None,
    }
}

/// The engine a script runs in.
pub open spec fn engine_of(response: StubResponse) -> Seq<char> {
    match script_of(response) {
        Some(s) => match s.engine {
            Some(e) => e@,
            None => "rhai"@,
        },
        None => "rhai"@,
    }
}

/// The faults a response may meet.
pub open spec fn faults_of(response: StubResponse) -> Option<RiftFaultConfig> {
    match response {
        StubResponse::Is { is: _, behaviors: _, rift: Some(x) } => x.fault,
        _ => None,
    }
}

/// Whether template functions are put into a response.
pub open spec fn is_templated(response: StubResponse) -> bool {
    match response {
        StubResponse::Is { is: _, behaviors: _, rift: Some(x) } => x.templated,
        _ => false,
    }
}

/// Whether behaviors work on a response.
pub open spec fn behaves(response: StubResponse) -> bool {
    match response {
        StubResponse::Is { is: _, behaviors, rift: _ } => behaviors is Some,
        StubResponse::Inject { inject: _, behaviors } => behaviors is Some,
        _ => false,
    }
}

/// Whether a response's body is text or base64 of raw bytes.
pub open spec fn mode_of(response: StubResponse) -> ResponseMode {
    match response {
        StubResponse::Is { is, behaviors: _, rift: _ } => is.mode,
        _ => ResponseMode::Text,
    }
}

/// The script that answers in a response's place.
pub fn script_config(response: &StubResponse) -> (r: Option<&RiftScriptConfig>)
    ensures
        (match r {
            Some(s) => script_of(*response) == Some(*s),
            None => script_of(*response) is None,
        }),
{
    match response {
        StubResponse::RiftScript { script } => Some(script),
        StubResponse::Is { is: _, behaviors: _, rift: Some(x) } => match &x.script {
            Some(s) => Some(s),
            None => None,
        },
        _ => None,
    }
}

/// The engine a script runs in.
pub fn script_engine(response: &StubResponse) -> (r: String)
    ensures
        r@ == engine_of(*response),
{
    match script_config(response) {
        Some(s) => match &s.engine {
            Some(e) => e.as_str().to_owned(),
            None => "rhai".to_owned(),
        },
        None => "rhai".to_owned(),
    }
}

fn fault_config(response: &StubResponse) -> (r: Option<&RiftFaultConfig>)
    ensures
        (match r {
            Some(f) => faults_of(*response) == Some(*f),
            None => faults_of(*response) is None,
        }),
{
    match response {
        StubResponse::Is { is: _, behaviors: _, rift: Some(x) } => match &x.fault {
            Some(f) => Some(f),
            None => None,
        },
        _ => None,
    }
}

/// The parts of a response that no fault struck go on to their templates.
pub open spec fn to_templates(response: StubResponse, parts: PartsModel) -> AnswerStepModel {
    if is_templated(response) {
        AnswerStepModel::Ask(AnswerPhaseModel::Templating { parts })
    } else {
        AnswerStepModel::Ask(AnswerPhaseModel::Substituting { parts })
    }
}

/// The parts of a response that is ready are served; dates are put into a text first.
pub open spec fn to_delivery(
    response: StubResponse,
    parts: PartsModel,
    strict: bool,
) -> AnswerStepModel {
    match mode_of(response) {
        ResponseMode::Text => AnswerStepModel::Ask(AnswerPhaseModel::Dating { parts }),
        ResponseMode::Binary => AnswerStepModel::Respond(delivery::binary_response(parts, strict)),
    }
}

/// What is done first for a chosen response.
pub open spec fn answer_begins(response: StubResponse) -> AnswerStepModel {
    match (response, script_of(response)) {
        (StubResponse::Proxy { proxy: _ }, _) => AnswerStepModel::Ask(AnswerPhaseModel::Proxying),
        (StubResponse::Inject { inject: _, behaviors: _ }, _) => AnswerStepModel::Ask(
            AnswerPhaseModel::Injecting,
        ),
        (_, Some(script)) => if script.code is Some {
            AnswerStepModel::Ask(AnswerPhaseModel::Scripting)
        } else {
            AnswerStepModel::Respond(unresolved_script())
        },
        (StubResponse::Fault { fault }, None) => AnswerStepModel::Respond(
            responses::fault_answer(fault@),
        ),
        (StubResponse::Is { is, behaviors: _, rift: _ }, None) => if faults_of(response) is Some {
            AnswerStepModel::Ask(
                AnswerPhaseModel::Drawing { parts: delivery::initial_parts(is) },
            )
        } else {
            to_templates(response, delivery::initial_parts(is))
        },
        (StubResponse::RiftScript { script: _ }, None) => AnswerStepModel::Respond(
            unresolved_script(),
        ),
    }
}

fn go_to_templates(response: &StubResponse, parts: ServedParts) -> (r: AnswerStep)
    ensures
        r@ == to_templates(*response, parts@),
{
    let templated: bool = match response {
        StubResponse::Is { is: _, behaviors: _, rift: Some(x) } => x.templated,
        _ => false,
    };
    if templated {
        AnswerStep::Ask(AnswerPhase::Templating { parts })
    } else {
        AnswerStep::Ask(AnswerPhase::Substituting { parts })
    }
}

fn has_behaviors(response: &StubResponse) -> (r: bool)
    ensures
        r == behaves(*response),
{
    match response {
        StubResponse::Is { is: _, behaviors, rift: _ } => behaviors.is_some(),
        StubResponse::Inject { inject: _, behaviors } => behaviors.is_some(),
        _ => false,
    }
}

fn response_mode(response: &StubResponse) -> (r: ResponseMode)
    ensures
        r == mode_of(*response),
{
    match response {
        StubResponse::Is { is, behaviors: _, rift: _ } => is.mode,
        _ => ResponseMode::Text,
    }
}

fn go_to_delivery(response: &StubResponse, parts: ServedParts, strict: bool) -> (r: AnswerStep)
    ensures
        r@ == to_delivery(*response, parts@, strict),
{
    match response_mode(response) {
        ResponseMode::Text => AnswerStep::Ask(AnswerPhase::Dating { parts }),
        ResponseMode::Binary => AnswerStep::Respond(
            delivery::finish(&parts, ResponseMode::Binary, strict),
        ),
    }
}

fn unresolved_response() -> (r: ServedResponse)
    ensures
        r@ == unresolved_script(),
{
    responses::marked_failure_response(
        500,
        "x-rift-script-error",
        "script not resolved: `file:`/`ref:` sources must be resolved before serving",
    )
}

/// What is done first for a chosen response.
pub fn start_answer(response: &StubResponse) -> (r: AnswerStep)
    ensures
        r@ == answer_begins(*response),
{
    match response {
        StubResponse::Proxy { proxy: _ } => {
            return AnswerStep::Ask(AnswerPhase::Proxying);
        },
        StubResponse::Inject { inject: _, behaviors: _ } => {
            return AnswerStep::Ask(AnswerPhase::Injecting);
        },
        _ => {},
    }
    if let Some(script) = script_config(response) {
        return if script.code.is_some() {
            AnswerStep::Ask(AnswerPhase::Scripting)
        } else {
            AnswerStep::Respond(unresolved_response())
        };
    }
    match response {
        StubResponse::Fault { fault } => AnswerStep::Respond(
            responses::handle_fault_response(fault.as_str()),
        ),
        StubResponse::Is { is, behaviors: _, rift: _ } => {
            let parts = delivery::parts_of(is);
            match fault_config(response) {
                Some(_) => AnswerStep::Ask(AnswerPhase::Drawing { parts }),
                None => go_to_templates(response, parts),
            }
        },
        _ => AnswerStep::Respond(unresolved_response()),
    }
}

/// Whether an event answers a phase.
pub open spec fn answers(phase: AnswerPhase, event: AnswerEvent) -> bool {
    match phase {
        AnswerPhase::Proxying => event is Proxied || event is ProxyFailed,
        AnswerPhase::Injecting => event is Injected || event is InjectFailed,
        AnswerPhase::Scripting => event is Decided || event is ScriptFailed || event is StoreFailed,
        AnswerPhase::Pausing { ms: _, answer: _ } => event is Slept,
        AnswerPhase::Drawing { parts: _ } => event is Drawn,
        AnswerPhase::Delaying { ms: _, tcp: _, error: _, parts: _ } => event is Slept,
        AnswerPhase::Templating { parts: _ } => event is Rendered || event is RenderFailed,
        AnswerPhase::Substituting { parts: _ } => event is Rendered,
        AnswerPhase::Behaving { parts: _ } => event is Behaved,
        AnswerPhase::Dating { parts: _ } => event is Dated,
    }
}

/// Header values without control characters.
pub open spec fn cleaned(values: Seq<Seq<char>>) -> Seq<Seq<char>> {
    Seq::new(values.len(), |i: int| responses::without_control(values[i]))
}

/// Headers whose values hold no control characters, so that no rendered value can add a line.
pub open spec fn cleaned_headers(headers: Seq<(Seq<char>, Seq<Seq<char>>)>) -> Seq<
    (Seq<char>, Seq<Seq<char>>),
> {
    Seq::new(headers.len(), |i: int| (headers[i].0, cleaned(headers[i].1)))
}

fn clean_headers(headers: &Vec<(String, Vec<String>)>) -> (r: Vec<(String, Vec<String>)>)
    ensures
        record::header_lines(r@) == cleaned_headers(record::header_lines(headers@)),
{
    let mut out: Vec<(String, Vec<String>)> = Vec::new();
    let mut i: usize = 0;
    while i < headers.len()
        invariant
            i <= headers@.len(),
            out@.len() == i,
            forall|k: int|
                0 <= k < i ==> (#[trigger] out@[k]).0@ == headers@[k].0@ && record::texts(
                    out@[k].1@,
                ) == cleaned(record::texts(headers@[k].1@)),
        decreases headers@.len() - i,
    {
        let h = &headers[i];
        let mut values: Vec<String> = Vec::new();
        let mut k: usize = 0;
        while k < h.1.len()
            invariant
                k <= h.1@.len(),
                values@.len() == k,
                forall|j: int|
                    0 <= j < k ==> (#[trigger] values@[j])@ == responses::without_control(
                        h.1@[j]@,
                    ),
            decreases h.1@.len() - k,
        {
            values.push(responses::sanitize_header_value(h.1[k].as_str()));
            k += 1;
        }
        proof {
            assert(record::texts(values@) =~= cleaned(record::texts(headers@[i as int].1@)));
        }
        out.push((h.0.as_str().to_owned(), values));
        i += 1;
    }
    proof {
        assert(record::header_lines(out@) =~= cleaned_headers(record::header_lines(headers@)));
    }
    out
}

/// What comes after the faults of a response were drawn, and their delay is over.
pub open spec fn after_faults(
    response: StubResponse,
    parts: PartsModel,
    tcp: bool,
    error: bool,
) -> AnswerStepModel {
    match faults_of(response) {
        Some(config) => match struck(config, tcp, error) {
            Some(r) => AnswerStepModel::Respond(r),
            None => to_templates(response, parts),
        },
        None => to_templates(response, parts),
    }
}

/// What comes after request values were put in.
pub open spec fn after_values(
    response: StubResponse,
    parts: PartsModel,
    strict: bool,
) -> AnswerStepModel {
    if behaves(response) {
        AnswerStepModel::Ask(AnswerPhaseModel::Behaving { parts })
    } else {
        to_delivery(response, parts, strict)
    }
}

/// What comes after the behaviors: an injected response is served, a fixed one delivered.
pub open spec fn after_behaviors(
    response: StubResponse,
    parts: PartsModel,
    strict: bool,
) -> AnswerStepModel {
    match response {
        StubResponse::Inject { inject: _, behaviors: _ } => AnswerStepModel::Respond(
            responses::injected(parts.status, delivery::flat(parts.headers), parts.body),
        ),
        _ => to_delivery(response, parts, strict),
    }
}

/// The status of the response that a phase works on.
pub open spec fn status_in(phase: AnswerPhase) -> u16 {
    match phase {
        AnswerPhase::Templating { parts } => parts.status,
        AnswerPhase::Substituting { parts } => parts.status,
        _ => 200,
    }
}

/// What comes after an event.
pub open spec fn answer(
    phase: AnswerPhase,
    event: AnswerEvent,
    response: StubResponse,
    strict: bool,
) -> AnswerStepModel {
    match event {
        AnswerEvent::Proxied(reply) => AnswerStepModel::Respond(responses::proxied(reply@)),
        AnswerEvent::ProxyFailed(chain) => AnswerStepModel::Respond(
            responses::upstream_failure(
                record::texts(chain@),
                "x-rift-proxy-error"@,
                "Proxy error"@,
            ),
        ),
        AnswerEvent::Injected { status, headers, body } => if behaves(response) {
            AnswerStepModel::Ask(
                AnswerPhaseModel::Behaving {
                    parts: PartsModel {
                        status,
                        headers: pipeline::as_lines(lookup::pairs(headers@)),
                        body: body@,
                    },
                },
            )
        } else {
            AnswerStepModel::Respond(responses::injected(status, lookup::pairs(headers@), body@))
        },
        AnswerEvent::InjectFailed { timed_out, message } => AnswerStepModel::Respond(
            if timed_out {
                responses::inject_timeout("injection timeout"@, message@)
            } else {
                responses::inject_failure("invalid injection"@, message@)
            },
        ),
        AnswerEvent::Decided { decision, trace } => {
            let r = script_answer(engine_of(response), decision, text::optional_text(trace));
            match decision {
                ScriptDecision::Latency { ms } => AnswerStepModel::Ask(
                    AnswerPhaseModel::Pausing { ms, answer: r },
                ),
                _ => AnswerStepModel::Respond(r),
            }
        },
        AnswerEvent::ScriptFailed { timed_out, message, trace } => AnswerStepModel::Respond(
            script_failure(timed_out, message@, text::optional_text(trace)),
        ),
        AnswerEvent::StoreFailed(message) => AnswerStepModel::Respond(
            responses::failure(500, message@),
        ),
        AnswerEvent::Slept => match phase {
            AnswerPhase::Pausing { ms: _, answer } => AnswerStepModel::Respond(answer@),
            AnswerPhase::Delaying { ms: _, tcp, error, parts } => after_faults(
                response,
                parts@,
                tcp,
                error,
            ),
            _ => AnswerStepModel::Ask(phase@),
        },
        AnswerEvent::Drawn { latency, tcp, error } => match (phase, faults_of(response)) {
            (AnswerPhase::Drawing { parts }, Some(config)) => if delay_of(config, latency) > 0 {
                AnswerStepModel::Ask(
                    AnswerPhaseModel::Delaying {
                        ms: delay_of(config, latency),
                        tcp,
                        error,
                        parts: parts@,
                    },
                )
            } else {
                after_faults(response, parts@, tcp, error)
            },
            (AnswerPhase::Drawing { parts }, None) => to_templates(response, parts@),
            _ => AnswerStepModel::Ask(phase@),
        },
        AnswerEvent::Rendered { headers, body } => if phase is Templating {
            AnswerStepModel::Ask(
                AnswerPhaseModel::Substituting {
                    parts: PartsModel {
                        status: status_in(phase),
                        headers: cleaned_headers(record::header_lines(headers@)),
                        body: body@,
                    },
                },
            )
        } else {
            after_values(
                response,
                PartsModel {
                    status: status_in(phase),
                    headers: record::header_lines(headers@),
                    body: body@,
                },
                strict,
            )
        },
        AnswerEvent::RenderFailed(message) => AnswerStepModel::Respond(
            responses::template_failure(message@),
        ),
        AnswerEvent::Behaved(BehaviorOutcome::Applied { parts, degraded: _ }) => after_behaviors(
            response,
            parts@,
            strict,
        ),
        AnswerEvent::Behaved(BehaviorOutcome::StrictFailure(r)) => AnswerStepModel::Respond(r@),
        AnswerEvent::Dated(body) => match phase {
            AnswerPhase::Dating { parts } => AnswerStepModel::Respond(
                delivery::text_response(PartsModel { body: body@, ..parts@ }),
            ),
            _ => AnswerStepModel::Ask(phase@),
        },
    }
}

fn go_after_faults(response: &StubResponse, parts: ServedParts, tcp: bool, error: bool) -> (r:
    AnswerStep)
    ensures
        r@ == after_faults(*response, parts@, tcp, error),
{
    if let Some(config) = fault_config(response) {
        if let Some(r) = fault_response(config, tcp, error) {
            return AnswerStep::Respond(r);
        }
    }
    go_to_templates(response, parts)
}

/// What comes after an event.
pub fn resume_answer(
    phase: AnswerPhase,
    event: AnswerEvent,
    response: &StubResponse,
    strict: bool,
) -> (r: AnswerStep)
    requires
        answers(phase, event),
    ensures
        r@ == answer(phase, event, *response, strict),
{
    match event {
        AnswerEvent::Proxied(reply) => AnswerStep::Respond(responses::proxied_response(reply)),
        AnswerEvent::ProxyFailed(chain) => AnswerStep::Respond(
            responses::upstream_error_response(&chain, "x-rift-proxy-error", "Proxy error"),
        ),
        AnswerEvent::Injected { status, headers, body } => if has_behaviors(response) {
            let parts = ServedParts { status, headers: pipeline::lines_of(&headers), body };
            AnswerStep::Ask(AnswerPhase::Behaving { parts })
        } else {
            AnswerStep::Respond(responses::inject_response(status, headers, body.as_str()))
        },
        AnswerEvent::InjectFailed { timed_out, message } => AnswerStep::Respond(
            if timed_out {
                responses::inject_timeout_response("injection timeout", message.as_str())
            } else {
                responses::inject_error_response("invalid injection", message.as_str())
            },
        ),
        AnswerEvent::Decided { decision, trace } => {
            let engine = script_engine(response);
            let late: Option<u64> = match &decision {
                ScriptDecision::Latency { ms } => Some(*ms),
                _ => None,
            };
            let r = script_response(engine.as_str(), decision, &trace);
            match late {
                Some(ms) => AnswerStep::Ask(AnswerPhase::Pausing { ms, answer: r }),
                None => AnswerStep::Respond(r),
            }
        },
        AnswerEvent::ScriptFailed { timed_out, message, trace } => AnswerStep::Respond(
            script_failure_response(timed_out, message.as_str(), &trace),
        ),
        AnswerEvent::StoreFailed(message) => AnswerStep::Respond(
            responses::backend_error_response(message.as_str()),
        ),
        AnswerEvent::Slept => match phase {
            AnswerPhase::Pausing { ms: _, answer } => AnswerStep::Respond(answer),
            AnswerPhase::Delaying { ms: _, tcp, error, parts } => go_after_faults(
                response,
                parts,
                tcp,
                error,
            ),
            _ => AnswerStep::Ask(phase),
        },
        AnswerEvent::Drawn { latency, tcp, error } => match phase {
            AnswerPhase::Drawing { parts } => {
                if let Some(config) = fault_config(response) {
                    let ms: u64 = fault_delay(config, latency);
                    if ms > 0 {
                        return AnswerStep::Ask(AnswerPhase::Delaying { ms, tcp, error, parts });
                    }
                }
                go_after_faults(response, parts, tcp, error)
            },
            _ => AnswerStep::Ask(phase),
        },
        AnswerEvent::Rendered { headers, body } => match phase {
            AnswerPhase::Templating { parts } => {
                let headers = clean_headers(&headers);
                AnswerStep::Ask(
                    AnswerPhase::Substituting {
                        parts: ServedParts { status: parts.status, headers, body },
                    },
                )
            },
            _ => {
                let status: u16 = match phase {
                    AnswerPhase::Substituting { parts } => parts.status,
                    _ => 200,
                };
                let parts = ServedParts { status, headers, body };
                if has_behaviors(response) {
                    AnswerStep::Ask(AnswerPhase::Behaving { parts })
                } else {
                    go_to_delivery(response, parts, strict)
                }
            },
        },
        AnswerEvent::RenderFailed(message) => AnswerStep::Respond(
            responses::template_error_response(message.as_str()),
        ),
        AnswerEvent::Behaved(BehaviorOutcome::Applied { parts, degraded: _ }) => match response {
            StubResponse::Inject { inject: _, behaviors: _ } => AnswerStep::Respond(
                responses::inject_response(
                    parts.status,
                    delivery::flatten(&parts.headers),
                    parts.body.as_str(),
                ),
            ),
            _ => go_to_delivery(response, parts, strict),
        },
        AnswerEvent::Behaved(BehaviorOutcome::StrictFailure(r)) => AnswerStep::Respond(r),
        AnswerEvent::Dated(body) => match phase {
            AnswerPhase::Dating { parts } => {
                let parts = ServedParts { status: parts.status, headers: parts.headers, body };
                AnswerStep::Respond(delivery::finish(&parts, ResponseMode::Text, strict))
            },
            _ => AnswerStep::Ask(phase),
        },
    }
}

/// How far an answer is along.
pub open spec fn answer_rank(phase: AnswerPhaseModel) -> nat {
    match phase {
        AnswerPhaseModel::Proxying => 0,
        AnswerPhaseModel::Injecting => 0,
        AnswerPhaseModel::Scripting => 0,
        AnswerPhaseModel::Pausing { ms: _, answer: _ } => 1,
        AnswerPhaseModel::Drawing { parts: _ } => 0,
        AnswerPhaseModel::Delaying { ms: _, tcp: _, error: _, parts: _ } => 1,
        AnswerPhaseModel::Templating { parts: _ } => 2,
        AnswerPhaseModel::Substituting { parts: _ } => 3,
        AnswerPhaseModel::Behaving { parts: _ } => 4,
        AnswerPhaseModel::Dating { parts: _ } => 5,
    }
}

/// Every event brings an answer nearer: no phase comes twice, and the request is answered after at
/// most six of them.
pub proof fn law_every_request_is_answered(
    phase: AnswerPhase,
    event: AnswerEvent,
    response: StubResponse,
    strict: bool,
)
    requires
        answers(phase, event),
    ensures
        (match answer(phase, event, response, strict) {
            AnswerStepModel::Ask(next) => answer_rank(phase@) < answer_rank(next) <= 5,
            AnswerStepModel::Respond(_) => true,
        }),
{
}

/// No header value that a template function rendered holds a control character.
pub proof fn law_rendered_headers_are_clean(
    headers: Seq<(Seq<char>, Seq<Seq<char>>)>,
    i: int,
    k: int,
    c: int,
)
    requires
        0 <= i < headers.len(),
        0 <= k < headers[i].1.len(),
        0 <= c < cleaned_headers(headers)[i].1[k].len(),
    ensures
        !responses::is_control(cleaned_headers(headers)[i].1[k][c]),
{
    responses::law_sanitised_values_are_clean(headers[i].1[k]);
}

/// What comes next for a request that no stub matches.
#[derive(Debug)]
pub enum UnmatchedStep {
    /// It goes to the default upstream.
    Forward,
    /// Dates are put into the default body.
    Date { body: String },
    Respond(ServedResponse),
}

/// What is done for a request that no stub matches: it is forwarded, else answered with the
/// default, else with nothing.
pub open spec fn unmatched(config: ImposterConfig, r: UnmatchedStep) -> bool {
    match (config.default_forward, config.default_response) {
        (Some(_), _) => r is Forward,
        (None, Some(default)) => {
            let body = delivery::text_of_body(delivery::body_model(default.body));
            match default.mode {
                ResponseMode::Text => r matches UnmatchedStep::Date { body: b } && b@ == body,
                ResponseMode::Binary => r matches UnmatchedStep::Respond(answer) && answer@
                    == delivery::default_answer(default, body),
            }
        },
        (None, None) => r matches UnmatchedStep::Respond(answer) && answer@
            == responses::no_match(),
    }
}

/// What is done for a request that no stub matches.
pub fn start_unmatched(config: &ImposterConfig) -> (r: UnmatchedStep)
    ensures
        unmatched(*config, r),
{
    if config.default_forward.is_some() {
        return UnmatchedStep::Forward;
    }
    match &config.default_response {
        Some(default) => {
            let body = delivery::body_text(&default.body);
            match default.mode {
                ResponseMode::Text => UnmatchedStep::Date { body },
                ResponseMode::Binary => UnmatchedStep::Respond(
                    delivery::default_response(default, body.as_str()),
                ),
            }
        },
        None => UnmatchedStep::Respond(responses::no_match_response()),
    }
}

/// What a forwarded request is answered.
pub open spec fn forward_answer(
    outcome: Result<proxy_run::RecordedModel, Seq<Seq<char>>>,
) -> ResponseModel {
    match outcome {
        Ok(reply) => responses::default_forwarded(reply),
        Err(chain) => responses::upstream_failure(
            chain,
            "x-rift-default-forward-error"@,
            "defaultForward upstream error"@,
        ),
    }
}

/// The outcome of a forwarded request as contracts see it.
pub open spec fn outcome_model(outcome: Result<RecordedResponse, Vec<String>>) -> Result<
    proxy_run::RecordedModel,
    Seq<Seq<char>>,
> {
    match outcome {
        Ok(reply) => Ok(reply@),
        Err(chain) => Err(record::texts(chain@)),
    }
}

/// What a forwarded request is answered: the upstream's reply, or the reason that there is none.
pub fn forward_response(outcome: Result<RecordedResponse, Vec<String>>) -> (r: ServedResponse)
    ensures
        r@ == forward_answer(outcome_model(outcome)),
{
    match outcome {
        Ok(reply) => responses::default_forward_response(reply),
        Err(chain) => responses::upstream_error_response(
            &chain,
            "x-rift-default-forward-error",
            "defaultForward upstream error",
        ),
    }
}

/// An answer as it leaves: where any origin is allowed, the headers that say so are there.
pub fn seal(response: ServedResponse, allow_cors: bool) -> (r: ServedResponse)
    ensures
        r@ == (if allow_cors {
            (ResponseModel { headers: responses::with_cors(response@.headers), ..response@ })
        } else {
            response@
        }),
{
    if allow_cors {
        responses::inject_cors_headers(response)
    } else {
        response
    }
}

/// A request as it is recorded, before anything is known of its answer.
pub open spec fn as_recorded(
    request_from: Seq<char>,
    method: Seq<char>,
    path: Seq<char>,
    query: Seq<char>,
    headers: Seq<(Seq<char>, Seq<Seq<char>>)>,
    body: RequestBody,
    timestamp: Seq<char>,
) -> RecordModel {
    RecordModel {
        mode: body.mode,
        request_from,
        method,
        path,
        query: query::query_parameters(query),
        headers,
        body: text::optional_text(body.body),
        timestamp,
        match_outcome: None,
        status: None,
        latency_ms: None,
        node: None,
    }
}

/// The request to record, where requests are recorded.
pub fn request_to_record(
    record_requests: bool,
    request_from: &str,
    method: &str,
    path: &str,
    query: &str,
    headers: &Vec<(String, Vec<String>)>,
    body: &RequestBody,
    timestamp: &str,
) -> (r: Option<RecordedRequest>)
    ensures
        (match r {
            Some(x) => record_requests && x@ == as_recorded(
                request_from@,
                method@,
                path@,
                query@,
                record::header_lines(headers@),
                *body,
                timestamp@,
            ),
            None => !record_requests,
        }),
{
    if !record_requests {
        return None;
    }
    Some(
        RecordedRequest {
            mode: body.mode,
            request_from: request_from.to_owned(),
            method: method.to_owned(),
            path: path.to_owned(),
            query: query::parse_query_string(query),
            headers: record::copy_headers(headers),
            body: text::copy_optional(&body.body),
            timestamp: timestamp.to_owned(),
            match_outcome: None,
            status: None,
            latency_ms: None,
            node: None,
        },
    )
}

/// A disabled imposter answers every request `503`. An enabled one answers an `OPTIONS` request, in
/// whatever case, at once where any origin is allowed, and reads every other.
pub proof fn law_requests_are_taken_in(
    enabled: bool,
    method: Seq<char>,
    allow_cors: bool,
    debug: bool,
)
    ensures
        !enabled ==> taken_in(enabled, method, allow_cors, debug) is Respond && taken_in(
            enabled,
            method,
            allow_cors,
            debug,
        )->Respond_0.status == 503,
        enabled && allow_cors && text::text_eq(method, "OPTIONS"@, false) ==> taken_in(
            enabled,
            method,
            allow_cors,
            debug,
        ) is Respond && taken_in(enabled, method, allow_cors, debug)->Respond_0.status == 200,
        enabled && !(allow_cors && text::text_eq(method, "OPTIONS"@, false)) ==> taken_in(
            enabled,
            method,
            allow_cors,
            debug,
        ) == IntakeStepModel::Ask(IntakePhaseModel::Reading { debug }),
{
}

/// A body within the limit goes on, to be debugged where that was asked for and to be matched where
/// it was not, as its bytes; one over the limit is refused `413`, and one that could not be read
/// `400`.
pub proof fn law_read_bodies_go_on(debug: bool, read: BodyRead)
    ensures
        ({
            let step = intake(IntakePhase::Reading { debug }, IntakeEvent::Read(read));
            &&& read matches BodyRead::Bytes(b) ==> {
                &&& b@.len() > 10 * 1024 * 1024 ==> step is Respond && step->Respond_0.status == 413
                &&& b@.len() <= 10 * 1024 * 1024 && debug ==> step == IntakeStepModel::Ask(
                    IntakePhaseModel::Debugging { body: delivery::body_of(b@) },
                )
                &&& b@.len() <= 10 * 1024 * 1024 && !debug ==> step == IntakeStepModel::Ask(
                    IntakePhaseModel::Matching { body: delivery::body_of(b@) },
                )
            }
            &&& read is TooLarge ==> step is Respond && step->Respond_0.status == 413
            &&& read is Failed ==> step is Respond && step->Respond_0.status == 400
        }),
{
}

/// A request that a stub matches moves that stub's scenario, chooses among that stub's responses,
/// and is served the one that was chosen. One that no stub matches is unmatched, and so is one
/// whose stub has no response.
pub proof fn law_the_matched_stub_is_served(body: RequestBody, at: usize, turn: usize)
    ensures
        intake(IntakePhase::Matching { body }, IntakeEvent::Matched(Some(at)))
            == IntakeStepModel::Ask(IntakePhaseModel::Moving { at }),
        intake(IntakePhase::Moving { at }, IntakeEvent::Moved) == IntakeStepModel::Ask(
            IntakePhaseModel::Choosing { at },
        ),
        intake(IntakePhase::Choosing { at }, IntakeEvent::Chosen(Some(turn)))
            == (IntakeStepModel::Serve { at, turn }),
        intake(IntakePhase::Matching { body }, IntakeEvent::Matched(None)) is Unmatched,
        intake(IntakePhase::Choosing { at }, IntakeEvent::Chosen(None)) is Unmatched,
{
}

/// A request that asked for debugging is answered what debugging came to, and never served: with
/// the answer, with a `500` where it broke off, and with a `504` where it took too long.
pub proof fn law_debug_requests_are_not_served(body: RequestBody, answer: ServedResponse)
    ensures
        intake(IntakePhase::Debugging { body }, IntakeEvent::Debugged(answer))
            == IntakeStepModel::Respond(answer@),
        intake(IntakePhase::Debugging { body }, IntakeEvent::DebugBroke) matches
            IntakeStepModel::Respond(r) && r.status == 500 && responses::tells(
            r,
            text::decimal(500),
            "Debug matching failed"@,
        ),
        intake(IntakePhase::Debugging { body }, IntakeEvent::DebugTimedOut) matches
            IntakeStepModel::Respond(r) && r.status == 504,
{
    responses::law_failures_tell_their_status(500, Seq::empty(), "Debug matching failed"@);
}

/// A store that failed while a request was taken in is told with a `500` and its message.
pub proof fn law_store_failures_are_told(at: usize, message: String)
    ensures
        intake(IntakePhase::Moving { at }, IntakeEvent::StoreFailed(message)) matches
            IntakeStepModel::Respond(r) && r.status == 500 && responses::tells(
            r,
            text::decimal(500),
            message@,
        ),
        intake(IntakePhase::Choosing { at }, IntakeEvent::StoreFailed(message)) matches
            IntakeStepModel::Respond(r) && r.status == 500 && responses::tells(
            r,
            text::decimal(500),
            message@,
        ),
{
    responses::law_failures_tell_their_status(500, Seq::empty(), message@);
}

/// A request asks for debugging by a header of `true`, in whatever case, or `1`, under either
/// spelling of its name; by no other value, and never without it.
pub proof fn law_debugging_is_asked_for(headers: Seq<(Seq<char>, Seq<char>)>, value: Seq<char>)
    ensures
        lookup::find_entry(headers, "X-Rift-Debug"@, true) == Some(value) ==> (asks_debug(headers)
            <==> text::text_eq(value, "true"@, false) || value == "1"@),
        lookup::find_entry(headers, "X-Rift-Debug"@, true) is None && lookup::find_entry(
            headers,
            "x-rift-debug"@,
            true,
        ) == Some(value) ==> (asks_debug(headers) <==> text::text_eq(value, "true"@, false) || value
            == "1"@),
        lookup::find_entry(headers, "X-Rift-Debug"@, true) is None && lookup::find_entry(
            headers,
            "x-rift-debug"@,
            true,
        ) is None ==> !asks_debug(headers),
{
}

/// What a script decides is answered: to pass with an empty `200`; to wait with an empty `200` that
/// tells how long, once the time is over; to fail with the script's own status, headers and body;
/// and to reset with a connection that is reset. Every answer names the engine, and tells what the
/// script logged where that is kept, in its last line.
pub proof fn law_script_decisions_are_answered(
    engine: Seq<char>,
    ms: u64,
    status: u16,
    headers: Vec<(String, String)>,
    body: String,
    decision: ScriptDecision,
    trace: Option<Seq<char>>,
)
    ensures
        ({
            let pass = script_answer(engine, ScriptDecision::Pass, trace);
            let wait = script_answer(engine, ScriptDecision::Latency { ms }, trace);
            let fail = script_answer(engine, ScriptDecision::Error { status, headers, body }, trace);
            let reset = script_answer(engine, ScriptDecision::Reset, trace);
            let any = script_answer(engine, decision, trace);
            &&& pass.status == 200 && pass.body.len() == 0 && pass.fault is None
            &&& wait.status == 200 && wait.body.len() == 0 && wait.fault is None
            &&& wait.headers.contains(("x-rift-latency-ms"@, text::decimal(ms as nat)))
            &&& fail.status == status && fail.body == encode_utf8(body@) && fail.fault is None
            &&& forall|i: int|
                0 <= i < headers@.len() ==> i < fail.headers.len() && #[trigger] fail.headers[i]
                    == (headers@[i].0@, headers@[i].1@)
            &&& reset.status == 502 && reset.body.len() == 0 && reset.fault == Some(
                TcpFaultKind::Reset,
            )
            &&& any.headers.contains(("x-rift-script"@, engine))
            &&& any.headers.contains(("x-rift-imposter"@, "true"@))
            &&& trace matches Some(t) ==> any.headers == script_answer(
                engine,
                decision,
                None,
            ).headers.push(("x-rift-script-trace"@, t))
        }),
{
    let flag = ("x-rift-imposter"@, "true"@);
    let by = ("x-rift-script"@, engine);
    let any = script_answer(engine, decision, trace).headers;
    match decision {
        ScriptDecision::Error { status: _, headers: own, body: _ } => {
            let n = own@.len() as int;
            assert(any[n] == flag);
            assert(any[n + 1] == by);
        },
        _ => {
            assert(any[0] == flag);
            assert(any[1] == by);
        },
    }
    let wait = script_answer(engine, ScriptDecision::Latency { ms }, trace).headers;
    assert(wait[2] == ("x-rift-latency-ms"@, text::decimal(ms as nat)));
}

/// A script that took too long is told with a `504` that says so, one that failed with a `500` that
/// does not; both with the message, and with what the script logged where that is kept.
pub proof fn law_script_failures_are_told(
    timed_out: bool,
    message: Seq<char>,
    trace: Option<Seq<char>>,
)
    ensures
        ({
            let r = script_failure(timed_out, message, trace);
            &&& r.status == (if timed_out {
                504u16
            } else {
                500u16
            })
            &&& responses::tells(
                r,
                text::decimal(r.status as nat),
                if timed_out {
                    "Script timeout: "@ + message
                } else {
                    "Script error: "@ + message
                },
            )
            &&& r.headers.contains(("x-rift-script-error"@, "true"@))
            &&& r.headers.contains(("x-rift-imposter"@, "true"@))
            &&& timed_out ==> r.headers.contains(("x-rift-script-timeout"@, "true"@))
            &&& trace matches Some(t) ==> r.headers.contains(("x-rift-script-trace"@, t))
            &&& r.headers.len() == 3 + (if timed_out {
                1int
            } else {
                0
            }) + (if trace is Some {
                1int
            } else {
                0
            })
        }),
{
    let r = script_failure(timed_out, message, trace).headers;
    let n = r.len() as int;
    assert(r[0] == ("x-rift-imposter"@, "true"@));
    assert(r[1] == ("x-rift-script-error"@, "true"@));
    assert(r[n - 1] == ("content-type"@, "application/json"@));
    if timed_out {
        assert(r[2] == ("x-rift-script-timeout"@, "true"@));
    }
    if trace is Some {
        assert(r[n - 2] == ("x-rift-script-trace"@, trace->0));
    }
}

/// A latency fault delays for its fixed time, or for the time drawn where its range is not empty,
/// or else for the least; and only where it strikes.
pub proof fn law_delays_are_as_configured(config: RiftFaultConfig, drawn: u64)
    ensures
        delay_of(config, None) == 0,
        config.latency is None ==> delay_of(config, Some(drawn)) == 0,
        config.latency matches Some(l) ==> {
            &&& l.ms matches Some(ms) ==> delay_of(config, Some(drawn)) == ms
            &&& l.ms is None && l.min_ms < l.max_ms ==> delay_of(config, Some(drawn)) == drawn
            &&& l.ms is None && l.min_ms >= l.max_ms ==> delay_of(config, Some(drawn)) == l.min_ms
        },
{
}

/// A connection fault that strikes under a known name breaks the connection as that fault does, and
/// an error that strikes is answered with its own status, headers and body. Where neither strikes,
/// or the connection fault has an unknown name and no error strikes, nothing takes the response's
/// place.
pub proof fn law_faults_strike_as_configured(config: RiftFaultConfig, tcp: bool, error: bool)
    ensures
        config.tcp matches Some(t) ==> (tcp && fault::fault_named(t.kind@) is Some ==> {
            &&& struck(config, tcp, error) is Some
            &&& struck(config, tcp, error)->0.fault == fault::fault_named(t.kind@)
            &&& struck(config, tcp, error)->0.status == 502
            &&& struck(config, tcp, error)->0.body.len() == 0
            &&& struck(config, tcp, error)->0.headers == seq![("x-rift-fault"@, t.kind@)]
        }),
        (!tcp || config.tcp is None || fault::fault_named(config.tcp->0.kind@) is None) ==> {
            &&& !error ==> struck(config, tcp, error) is None
            &&& config.error is None ==> struck(config, tcp, error) is None
            &&& config.error matches Some(e) ==> (error ==> {
                let r = struck(config, tcp, error)->0;
                &&& struck(config, tcp, error) is Some
                &&& r.status == e.status
                &&& r.fault is None
                &&& e.body matches Some(b) ==> r.body == encode_utf8(b@)
                &&& e.body is None ==> r.body.len() == 0
                &&& r.headers == lookup::pairs(e.headers@) + seq![
                    ("x-rift-imposter"@, "true"@),
                    ("x-rift-fault"@, "error"@),
                ]
            })
        },
{
    if config.error is Some {
        let e = config.error->0;
        assert(lookup::pairs(e.headers@).push(("x-rift-imposter"@, "true"@)).push(
            ("x-rift-fault"@, "error"@),
        ) =~= lookup::pairs(e.headers@) + seq![
            ("x-rift-imposter"@, "true"@),
            ("x-rift-fault"@, "error"@),
        ]);
    }
}

/// A proxy proxies, an injection injects, a script that was read runs, one that was not is told, a
/// fault breaks the connection, and a fixed response starts as it is configured: with its faults
/// drawn first where it may meet any, else with its templates where it has them, else with the
/// request's values.
pub proof fn law_answers_begin_by_kind(response: StubResponse)
    ensures
        response is Proxy ==> answer_begins(response) == AnswerStepModel::Ask(
            AnswerPhaseModel::Proxying,
        ),
        response is Inject ==> answer_begins(response) == AnswerStepModel::Ask(
            AnswerPhaseModel::Injecting,
        ),
        response matches StubResponse::Fault { fault } ==> answer_begins(response)
            == AnswerStepModel::Respond(responses::fault_answer(fault@)),
        response matches StubResponse::RiftScript { script } ==> {
            &&& script.code is Some ==> answer_begins(response) == AnswerStepModel::Ask(
                AnswerPhaseModel::Scripting,
            )
            &&& script.code is None ==> answer_begins(response) is Respond && answer_begins(
                response,
            )->Respond_0.status == 500
        },
        response matches StubResponse::Is { is, behaviors: _, rift } ==> {
            let parts = PartsModel {
                status: is.status_code,
                headers: record::header_lines(is.headers@),
                body: delivery::text_of_body(delivery::body_model(is.body)),
            };
            &&& rift is None ==> answer_begins(response) == AnswerStepModel::Ask(
                AnswerPhaseModel::Substituting { parts },
            )
            &&& rift matches Some(x) ==> {
                &&& x.script is Some && x.script->0.code is Some ==> answer_begins(response)
                    == AnswerStepModel::Ask(AnswerPhaseModel::Scripting)
                &&& x.script is Some && x.script->0.code is None ==> answer_begins(response)
                    is Respond
                &&& x.script is None && x.fault is Some ==> answer_begins(response)
                    == AnswerStepModel::Ask(AnswerPhaseModel::Drawing { parts })
                &&& x.script is None && x.fault is None && x.templated ==> answer_begins(response)
                    == AnswerStepModel::Ask(AnswerPhaseModel::Templating { parts })
                &&& x.script is None && x.fault is None && !x.templated ==> answer_begins(response)
                    == AnswerStepModel::Ask(AnswerPhaseModel::Substituting { parts })
            }
        },
{
}

/// A script runs in the engine that it names, and in the default one where it names none; and one
/// that was not read is told as a failure of the script. Behaviors work on fixed and on injected
/// responses that have any, and on no others.
pub proof fn law_scripts_and_behaviors_are_as_configured(response: StubResponse)
    ensures
        script_of(response) matches Some(s) ==> (s.engine matches Some(e) ==> engine_of(response)
            == e@),
        script_of(response) matches Some(s) ==> (s.engine is None ==> engine_of(response)
            == "rhai"@),
        script_of(response) is None ==> engine_of(response) == "rhai"@,
        response matches StubResponse::RiftScript { script } ==> script_of(response) == Some(script),
        response matches StubResponse::Is { is: _, behaviors, rift } ==> (behaves(response)
            <==> behaviors is Some) && (rift is None ==> script_of(response) is None) && (rift
            matches Some(x) ==> script_of(response) == x.script),
        response matches StubResponse::Inject { inject: _, behaviors } ==> (behaves(response)
            <==> behaviors is Some) && script_of(response) is None,
        response is Proxy || response is Fault || response is RiftScript ==> !behaves(response)
            && !is_templated(response) && mode_of(response) == ResponseMode::Text,
        response is Proxy || response is Fault ==> script_of(response) is None,
        unresolved_script().status == 500,
        unresolved_script().headers.contains(("x-rift-script-error"@, "true"@)),
        responses::tells(
            unresolved_script(),
            text::decimal(500),
            "script not resolved: `file:`/`ref:` sources must be resolved before serving"@,
        ),
{
    responses::law_failures_tell_their_status(
        500,
        "x-rift-script-error"@,
        "script not resolved: `file:`/`ref:` sources must be resolved before serving"@,
    );
}

/// What an upstream answered is served on; where none could be reached, that is told.
pub proof fn law_proxied_answers_are_served(
    reply: RecordedResponse,
    chain: Vec<String>,
    response: StubResponse,
    strict: bool,
)
    requires
        chain@.len() > 0,
    ensures
        answer(AnswerPhase::Proxying, AnswerEvent::Proxied(reply), response, strict) matches
            AnswerStepModel::Respond(r) && r.status == reply.status && r.body == reply.body@
            && r.headers.contains(("x-rift-proxy"@, "true"@)),
        answer(AnswerPhase::Proxying, AnswerEvent::ProxyFailed(chain), response, strict) matches
            AnswerStepModel::Respond(r) && r.status == 502 && r.headers.contains(
            ("x-rift-proxy-error"@, "true"@),
        ) && responses::tells(r, text::decimal(502), "Proxy error"@ + ": "@ + chain@[0]@),
{
    responses::law_upstream_answers_are_served_on(reply@, ("x-rift-proxy"@, "true"@));
    let texts = record::texts(chain@);
    let behind = texts.drop_first();
    assert(seq![texts[0]] + behind =~= texts);
    responses::law_unreachable_upstreams_are_told(
        texts[0],
        behind,
        "x-rift-proxy-error"@,
        "Proxy error"@,
    );
}

/// What an injected script answered goes through the behaviors, where the response has any, as it
/// is, and is served as it is where it has none. A script that took too long is told with a `504`,
/// one that failed with a `400`.
pub proof fn law_injected_answers_go_on(
    status: u16,
    headers: Vec<(String, String)>,
    body: String,
    message: String,
    inject: String,
    behaviors: Option<crate::types::ResponseBehaviors>,
    strict: bool,
)
    ensures
        ({
            let response = StubResponse::Inject { inject, behaviors };
            let step = answer(
                AnswerPhase::Injecting,
                AnswerEvent::Injected { status, headers, body },
                response,
                strict,
            );
            let late = answer(
                AnswerPhase::Injecting,
                AnswerEvent::InjectFailed { timed_out: true, message },
                response,
                strict,
            );
            let failed = answer(
                AnswerPhase::Injecting,
                AnswerEvent::InjectFailed { timed_out: false, message },
                response,
                strict,
            );
            &&& behaviors is None ==> step is Respond && step->Respond_0.status == status
                && step->Respond_0.body == encode_utf8(body@) && step->Respond_0.fault is None
            &&& behaviors is None ==> forall|i: int|
                0 <= i < headers@.len() ==> #[trigger] step->Respond_0.headers[i] == (
                    headers@[i].0@,
                    headers@[i].1@,
                )
            &&& behaviors is Some ==> (step matches AnswerStepModel::Ask(
                AnswerPhaseModel::Behaving { parts },
            ) && parts.status == status && parts.body == body@ && parts.headers.len()
                == headers@.len() && forall|i: int|
                0 <= i < headers@.len() ==> #[trigger] parts.headers[i] == (
                    headers@[i].0@,
                    seq![headers@[i].1@],
                ))
            &&& late is Respond && late->Respond_0.status == 504 && responses::tells(
                late->Respond_0,
                "injection timeout"@,
                message@,
            )
            &&& failed is Respond && failed->Respond_0.status == 400 && responses::tells(
                failed->Respond_0,
                "invalid injection"@,
                message@,
            )
        }),
{
    responses::law_injections_fail_by_their_cause("injection timeout"@, message@);
    responses::law_injections_fail_by_their_cause("invalid injection"@, message@);
}

/// A script's decision is answered at once, but for a latency: then the answer waits as long as the
/// script said, and is the same answer once the time is over. A script that failed, or a store that
/// did, is told.
pub proof fn law_decisions_are_answered_in_time(
    ms: u64,
    decision: ScriptDecision,
    trace: Option<String>,
    response: StubResponse,
    pausing: AnswerPhase,
    message: String,
    strict: bool,
)
    ensures
        ({
            let wait = answer(
                AnswerPhase::Scripting,
                AnswerEvent::Decided { decision: ScriptDecision::Latency { ms }, trace },
                response,
                strict,
            );
            let other = answer(
                AnswerPhase::Scripting,
                AnswerEvent::Decided { decision, trace },
                response,
                strict,
            );
            let store = answer(
                AnswerPhase::Scripting,
                AnswerEvent::StoreFailed(message),
                response,
                strict,
            );
            let late = answer(
                AnswerPhase::Scripting,
                AnswerEvent::ScriptFailed { timed_out: true, message, trace },
                response,
                strict,
            );
            let failed = answer(
                AnswerPhase::Scripting,
                AnswerEvent::ScriptFailed { timed_out: false, message, trace },
                response,
                strict,
            );
            &&& wait is Ask && wait->Ask_0 is Pausing && wait->Ask_0->Pausing_ms == ms
                && wait->Ask_0->answer.status == 200
            &&& pausing@ == wait->Ask_0 ==> answer(pausing, AnswerEvent::Slept, response, strict)
                == AnswerStepModel::Respond(wait->Ask_0->answer)
            &&& !(decision is Latency) ==> other is Respond
            &&& decision is Reset ==> other->Respond_0.fault == Some(TcpFaultKind::Reset)
            &&& decision matches ScriptDecision::Error { status, headers: _, body } ==> other->Respond_0.status
                == status && other->Respond_0.body == encode_utf8(body@)
            &&& decision is Pass ==> other->Respond_0.status == 200
            &&& store is Respond && store->Respond_0.status == 500 && responses::tells(
                store->Respond_0,
                text::decimal(500),
                message@,
            )
            &&& late is Respond && late->Respond_0.status == 504
            &&& failed is Respond && failed->Respond_0.status == 500
        }),
{
    responses::law_failures_tell_their_status(500, Seq::empty(), message@);
}

/// A response whose faults were drawn is delayed where they delay, and then goes on as drawn; what
/// strikes takes its place, and where nothing does the response goes on as it was, to its templates
/// where it has them and to the request's values where it has none.
pub proof fn law_undisturbed_responses_go_on(
    parts: ServedParts,
    latency: Option<u64>,
    tcp: bool,
    error: bool,
    is: crate::types::IsResponse,
    behaviors: Option<crate::types::ResponseBehaviors>,
    x: crate::types::RiftResponseExtension,
    config: RiftFaultConfig,
    ms: u64,
    strict: bool,
)
    requires
        x.fault == Some(config),
    ensures
        ({
            let response = StubResponse::Is { is, behaviors, rift: Some(x) };
            let drawn = answer(
                AnswerPhase::Drawing { parts },
                AnswerEvent::Drawn { latency, tcp, error },
                response,
                strict,
            );
            let slept = answer(
                AnswerPhase::Delaying { ms, tcp, error, parts },
                AnswerEvent::Slept,
                response,
                strict,
            );
            &&& delay_of(config, latency) > 0 ==> drawn == AnswerStepModel::Ask(
                AnswerPhaseModel::Delaying {
                    ms: delay_of(config, latency),
                    tcp,
                    error,
                    parts: parts@,
                },
            )
            &&& delay_of(config, latency) == 0 ==> drawn == slept
            &&& struck(config, tcp, error) matches Some(r) ==> slept == AnswerStepModel::Respond(r)
            &&& struck(config, tcp, error) is None && x.templated ==> slept == AnswerStepModel::Ask(
                AnswerPhaseModel::Templating { parts: parts@ },
            )
            &&& struck(config, tcp, error) is None && !x.templated ==> slept
                == AnswerStepModel::Ask(AnswerPhaseModel::Substituting { parts: parts@ })
        }),
{
}

/// What templates rendered goes on with the status that was there and exactly the rendered body;
/// its headers have the rendered names and as many values, each without its control characters. A
/// template that fails is told.
pub proof fn law_rendered_templates_go_on(
    parts: ServedParts,
    headers: Vec<(String, Vec<String>)>,
    body: String,
    message: String,
    response: StubResponse,
    strict: bool,
)
    ensures
        ({
            let phase = AnswerPhase::Templating { parts };
            let step = answer(phase, AnswerEvent::Rendered { headers, body }, response, strict);
            let failed = answer(phase, AnswerEvent::RenderFailed(message), response, strict);
            &&& step matches AnswerStepModel::Ask(AnswerPhaseModel::Substituting { parts: after })
                && after.status == parts.status && after.body == body@ && after.headers.len()
                == headers@.len() && forall|i: int|
                0 <= i < headers@.len() ==> (#[trigger] after.headers[i]).0 == headers@[i].0@
                    && after.headers[i].1.len() == headers@[i].1@.len() && forall|k: int|
                    0 <= k < headers@[i].1@.len() ==> #[trigger] after.headers[i].1[k]
                        == responses::without_control(headers@[i].1@[k]@)
            &&& failed matches AnswerStepModel::Respond(r) && r.status == 500 && responses::tells(
                r,
                text::decimal(500),
                "template rendering failed: "@ + message@,
            )
        }),
{
    responses::law_refusals_tell_why(message@);
}

/// What the request's values were put into goes on with the status that was there and exactly the
/// headers and the body that came of it: to the behaviors where the response has any, else to be
/// dated where it is text, and else to be served as the bytes that it stands for.
pub proof fn law_substituted_values_go_on(
    parts: ServedParts,
    headers: Vec<(String, Vec<String>)>,
    body: String,
    response: StubResponse,
    strict: bool,
)
    requires
        response is Is,
    ensures
        ({
            let step = answer(
                AnswerPhase::Substituting { parts },
                AnswerEvent::Rendered { headers, body },
                response,
                strict,
            );
            let after = PartsModel {
                status: parts.status,
                headers: record::header_lines(headers@),
                body: body@,
            };
            &&& response->Is_behaviors is Some ==> step == AnswerStepModel::Ask(
                AnswerPhaseModel::Behaving { parts: after },
            )
            &&& response->Is_behaviors is None && response->is.mode == ResponseMode::Text ==> step
                == AnswerStepModel::Ask(AnswerPhaseModel::Dating { parts: after })
            &&& response->Is_behaviors is None && response->is.mode == ResponseMode::Binary ==> (
            step matches AnswerStepModel::Respond(r) && (delivery::base64_bytes(body@) matches Ok(
                bytes,
            ) ==> r.status == parts.status && r.body == bytes))
        }),
{
}

/// What the behaviors came to is what is served: of an injection at once, of a fixed text once it is
/// dated, and of a fixed binary as the bytes that it stands for. A failure of theirs is served as
/// it is.
pub proof fn law_behaved_responses_are_served(
    before: ServedParts,
    parts: ServedParts,
    degraded: bool,
    failure: ServedResponse,
    response: StubResponse,
    strict: bool,
)
    ensures
        ({
            let phase = AnswerPhase::Behaving { parts: before };
            let step = answer(
                phase,
                AnswerEvent::Behaved(BehaviorOutcome::Applied { parts, degraded }),
                response,
                strict,
            );
            let failed = answer(
                phase,
                AnswerEvent::Behaved(BehaviorOutcome::StrictFailure(failure)),
                response,
                strict,
            );
            &&& failed == AnswerStepModel::Respond(failure@)
            &&& response is Inject ==> (step matches AnswerStepModel::Respond(r) && r.status
                == parts.status && r.body == encode_utf8(parts.body@) && r.headers
                == delivery::flat(record::header_lines(parts.headers@)) + seq![
                ("x-rift-imposter"@, "true"@),
                ("x-rift-inject"@, "true"@),
            ])
            &&& response is Is && response->is.mode == ResponseMode::Text ==> step
                == AnswerStepModel::Ask(AnswerPhaseModel::Dating { parts: parts@ })
            &&& response is Is && response->is.mode == ResponseMode::Binary ==> (step matches
                AnswerStepModel::Respond(r) && (delivery::base64_bytes(parts.body@) matches Ok(bytes)
                ==> r.status == parts.status && r.body == bytes))
        }),
{
    responses::law_injected_answers_are_served(
        parts.status,
        delivery::flat(record::header_lines(parts.headers@)),
        parts.body@,
    );
}

/// A text that was dated is served as dated, under the status and with the header lines that were
/// there.
pub proof fn law_dated_texts_are_served(
    parts: ServedParts,
    body: String,
    response: StubResponse,
    strict: bool,
)
    ensures
        answer(AnswerPhase::Dating { parts }, AnswerEvent::Dated(body), response, strict) matches
            AnswerStepModel::Respond(r) && r.status == parts.status && r.body == encode_utf8(body@)
            && r.fault is None && r.headers == delivery::flat(
            record::header_lines(parts.headers@),
        ) + seq![("x-rift-imposter"@, "true"@)],
{
    let flat = delivery::flat(record::header_lines(parts.headers@));
    assert(flat.push(("x-rift-imposter"@, "true"@)) =~= flat + seq![
        ("x-rift-imposter"@, "true"@),
    ]);
}

/// A request that no stub matches is forwarded where there is somewhere to forward it to, whatever
/// else is configured; else it gets the default response where there is one, and else an empty
/// answer.
pub proof fn law_unmatched_requests_are_answered(config: ImposterConfig, r: UnmatchedStep)
    requires
        unmatched(config, r),
    ensures
        config.default_forward is Some <==> r is Forward,
        config.default_forward is None && config.default_response is None ==> r is Respond
            && r->Respond_0.status == 200 && r->Respond_0.body@.len() == 0,
        config.default_forward is None && config.default_response is Some ==> {
            let default = config.default_response->0;
            let body = delivery::text_of_body(delivery::body_model(default.body));
            &&& default.mode == ResponseMode::Text ==> r is Date && r->body@ == body
            &&& default.mode == ResponseMode::Binary ==> r is Respond && r->Respond_0.status
                == default.status_code && (delivery::base64_bytes(body) matches Ok(bytes)
                ==> r->Respond_0.body@ == bytes)
        },
{
}

/// What a forwarded request was answered is served on, and where the upstream could not be reached
/// that is told.
pub proof fn law_forwarded_requests_are_answered(
    reply: proxy_run::RecordedModel,
    what: Seq<char>,
    behind: Seq<Seq<char>>,
)
    ensures
        ({
            let ok = forward_answer(Ok(reply));
            let failed = forward_answer(Err(seq![what] + behind));
            &&& ok.status == reply.status && ok.body == reply.body && ok.fault is None
            &&& ok.headers.contains(("x-rift-default-forward"@, "true"@))
            &&& failed.status == 502
            &&& failed.headers.contains(("x-rift-default-forward-error"@, "true"@))
            &&& responses::tells(
                failed,
                text::decimal(502),
                "defaultForward upstream error"@ + ": "@ + what,
            )
        }),
{
    responses::law_upstream_answers_are_served_on(reply, ("x-rift-default-forward"@, "true"@));
    responses::law_unreachable_upstreams_are_told(
        what,
        behind,
        "x-rift-default-forward-error"@,
        "defaultForward upstream error"@,
    );
}

/// A request is recorded as it came: its source, method, path and headers, its body and how that is
/// held, when it came, and every parameter of its query; with nothing of an answer yet.
pub proof fn law_requests_are_recorded_as_they_came(
    request_from: Seq<char>,
    method: Seq<char>,
    path: Seq<char>,
    query: Seq<char>,
    headers: Seq<(Seq<char>, Seq<Seq<char>>)>,
    body: RequestBody,
    timestamp: Seq<char>,
)
    ensures
        ({
            let r = as_recorded(request_from, method, path, query, headers, body, timestamp);
            &&& r.request_from == request_from
            &&& r.method == method
            &&& r.path == path
            &&& r.headers == headers
            &&& r.timestamp == timestamp
            &&& r.mode == body.mode
            &&& body.body is None <==> r.body is None
            &&& body.body matches Some(b) ==> r.body == Some(b@)
            &&& r.query == query::query_parameters(query)
            &&& r.match_outcome is None && r.status is None && r.latency_ms is None && r.node
                is None
        }),
{
}

} // verus!
