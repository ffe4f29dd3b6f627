//! One proxied request, step by step.
//!
//! The store of recorded responses, the upstream call and the generator scripts are asked outside;
//! what is done next, and with what, is decided here.

use crate::headers;
use crate::lookup;
use crate::record;
use crate::text;
use crate::types::ProxyResponse;
use vstd::prelude::*;

verus! {

/// An answer from upstream.
#[derive(Debug)]
pub struct UpstreamResponse {
    pub status: u16,
    pub headers: Vec<(String, String)>,
    pub body: Vec<u8>,
    /// How long it took.
    pub latency_ms: u64,
}

/// A response as it is recorded, and as it is handed back.
#[derive(Debug)]
pub struct RecordedResponse {
    pub status: u16,
    pub headers: Vec<(String, String)>,
    pub body: Vec<u8>,
    /// How long it took, where the proxy keeps that.
    pub latency_ms: Option<u64>,
}

/// An answer from upstream as contracts see it.
pub struct UpstreamModel {
    pub status: u16,
    pub headers: Seq<(Seq<char>, Seq<char>)>,
    pub body: Seq<u8>,
    pub latency_ms: u64,
}

/// A recorded response as contracts see it.
pub struct RecordedModel {
    pub status: u16,
    pub headers: Seq<(Seq<char>, Seq<char>)>,
    pub body: Seq<u8>,
    pub latency_ms: Option<u64>,
}

impl UpstreamResponse {
    /// The answer as contracts see it.
    pub open spec fn view(&self) -> UpstreamModel {
        UpstreamModel {
            status: self.status,
            headers: lookup::pairs(self.headers@),
            body: self.body@,
            latency_ms: self.latency_ms,
        }
    }
}

impl RecordedResponse {
    /// The response as contracts see it.
    pub open spec fn view(&self) -> RecordedModel {
        RecordedModel {
            status: self.status,
            headers: lookup::pairs(self.headers@),
            body: self.body@,
            latency_ms: self.latency_ms,
        }
    }
}

/// What the store says to a claim on recording a request.
#[derive(Clone, Copy, Debug, PartialEq, Eq, Structural)]
pub enum ClaimAnswer {
    /// It is recorded already.
    AlreadyRecorded,
    /// Another request is recording it.
    InFlight,
    /// The claim is granted.
    Claimed,
    /// The store could not be asked.
    Unavailable,
}

/// What came back from outside.
pub enum ProxyEvent {
    ClaimAnswered(ClaimAnswer),
    LookedUp(Option<RecordedResponse>),
    /// Of a failed call, every reason, outermost first.
    Forwarded(Result<UpstreamResponse, Vec<String>>),
    /// Whether recording succeeded.
    Recorded(bool),
    Released,
    /// The kind of failure, where predicates could not be generated.
    Generated(Option<String>),
    Placed,
}

/// Where a proxied request stands.
pub enum ProxyPhase {
    Claiming,
    LookingUp,
    /// Whether a claim on recording is held.
    Forwarding { holding: bool },
    /// The upstream call failed, and the claim is being given back.
    Failing { error: Vec<String> },
    Recording { response: UpstreamResponse },
    /// Recording failed, and the claim is being given back.
    Releasing { response: UpstreamResponse },
    Generating { response: UpstreamResponse },
    Placing { response: UpstreamResponse },
    Finished,
}

/// What is to be done next.
pub enum ProxyAction {
    LookUp,
    Forward,
    Record(RecordedResponse),
    Release,
    /// Generate the predicates of a stub.
    Generate,
    /// Put a stub for the response where the mode wants it.
    Place { mode: String, latency_ms: Option<u64> },
    Reply(RecordedResponse),
    Fail(Vec<String>),
}

/// What came back, as contracts see it.
pub enum EventModel {
    ClaimAnswered(ClaimAnswer),
    LookedUp(Option<RecordedModel>),
    Forwarded(Result<UpstreamModel, Seq<Seq<char>>>),
    Recorded(bool),
    Released,
    Generated(Option<Seq<char>>),
    Placed,
}

/// Where a proxied request stands, as contracts see it.
pub enum PhaseModel {
    Claiming,
    LookingUp,
    Forwarding { holding: bool },
    Failing { error: Seq<Seq<char>> },
    Recording { response: UpstreamModel },
    Releasing { response: UpstreamModel },
    Generating { response: UpstreamModel },
    Placing { response: UpstreamModel },
    Finished,
}

/// What is to be done next, as contracts see it.
pub enum ActionModel {
    LookUp,
    Forward,
    Record(RecordedModel),
    Release,
    Generate,
    Place { mode: Seq<char>, latency_ms: Option<u64> },
    Reply(RecordedModel),
    Fail(Seq<Seq<char>>),
}

impl ProxyEvent {
    /// What came back, as contracts see it.
    pub open spec fn view(&self) -> EventModel {
        match self {
            ProxyEvent::ClaimAnswered(a) => EventModel::ClaimAnswered(*a),
            ProxyEvent::LookedUp(Some(r)) => EventModel::LookedUp(Some(r@)),
            ProxyEvent::LookedUp(None) => EventModel::LookedUp(None),
            ProxyEvent::Forwarded(Ok(r)) => EventModel::Forwarded(Ok(r@)),
            ProxyEvent::Forwarded(Err(e)) => EventModel::Forwarded(Err(record::texts(e@))),
            ProxyEvent::Recorded(b) => EventModel::Recorded(*b),
            ProxyEvent::Released => EventModel::Released,
            ProxyEvent::Generated(k) => EventModel::Generated(text::optional_text(*k)),
            ProxyEvent::Placed => EventModel::Placed,
        }
    }
}

impl ProxyPhase {
    /// Where the request stands, as contracts see it.
    pub open spec fn view(&self) -> PhaseModel {
        match self {
            ProxyPhase::Claiming => PhaseModel::Claiming,
            ProxyPhase::LookingUp => PhaseModel::LookingUp,
            ProxyPhase::Forwarding { holding } => PhaseModel::Forwarding { holding: *holding },
            ProxyPhase::Failing { error } => PhaseModel::Failing {
                error: record::texts(error@),
            },
            ProxyPhase::Recording { response } => PhaseModel::Recording { response: response@ },
            ProxyPhase::Releasing { response } => PhaseModel::Releasing { response: response@ },
            ProxyPhase::Generating { response } => PhaseModel::Generating { response: response@ },
            ProxyPhase::Placing { response } => PhaseModel::Placing { response: response@ },
            ProxyPhase::Finished => PhaseModel::Finished,
        }
    }
}

impl ProxyAction {
    /// What is to be done, as contracts see it.
    pub open spec fn view(&self) -> ActionModel {
        match self {
            ProxyAction::LookUp => ActionModel::LookUp,
            ProxyAction::Forward => ActionModel::Forward,
            ProxyAction::Record(r) => ActionModel::Record(r@),
            ProxyAction::Release => ActionModel::Release,
            ProxyAction::Generate => ActionModel::Generate,
            ProxyAction::Place { mode, latency_ms } => ActionModel::Place {
                mode: mode@,
                latency_ms: *latency_ms,
            },
            ProxyAction::Reply(r) => ActionModel::Reply(r@),
            ProxyAction::Fail(e) => ActionModel::Fail(record::texts(e@)),
        }
    }
}

/// Whether an event answers what a phase asked.
pub open spec fn answers(p: PhaseModel, e: EventModel) -> bool {
    match p {
        PhaseModel::Claiming => e is ClaimAnswered,
        PhaseModel::LookingUp => e is LookedUp,
        PhaseModel::Forwarding { holding } => e is Forwarded,
        PhaseModel::Failing { error } => e is Released,
        PhaseModel::Recording { response } => e is Recorded,
        PhaseModel::Releasing { response } => e is Released,
        PhaseModel::Generating { response } => e is Generated,
        PhaseModel::Placing { response } => e is Placed,
        PhaseModel::Finished => false,
    }
}

/// Whether a proxy makes stubs of what it forwards.
pub open spec fn makes_stubs(c: ProxyResponse) -> bool {
    c.predicate_generators@.len() > 0 || c.add_wait_behavior || c.add_decorate_behavior is Some
}

/// The latency a proxy keeps.
pub open spec fn kept_latency(c: ProxyResponse, latency_ms: u64) -> Option<u64> {
    if c.add_wait_behavior {
        Some(latency_ms)
    } else {
        None
    }
}

/// An answer as it is recorded and handed back.
pub open spec fn as_recorded(c: ProxyResponse, r: UpstreamModel) -> RecordedModel {
    RecordedModel {
        status: r.status,
        headers: r.headers,
        body: r.body,
        latency_ms: kept_latency(c, r.latency_ms),
    }
}

/// The mode a proxy places stubs by; `proxyOnce` where it names none.
pub open spec fn placing_mode(c: ProxyResponse) -> Seq<char> {
    if c.mode@.len() == 0 {
        "proxyOnce"@
    } else {
        c.mode@
    }
}

/// Placing a stub for a response.
pub open spec fn place(c: ProxyResponse, r: UpstreamModel) -> (PhaseModel, ActionModel) {
    (
        PhaseModel::Placing { response: r },
        ActionModel::Place { mode: placing_mode(c), latency_ms: kept_latency(c, r.latency_ms) },
    )
}

/// What follows once recording is settled.
pub open spec fn settled(c: ProxyResponse, r: UpstreamModel) -> (PhaseModel, ActionModel) {
    if !makes_stubs(c) {
        (PhaseModel::Finished, ActionModel::Reply(as_recorded(c, r)))
    } else if c.predicate_generators@.len() > 0 {
        (PhaseModel::Generating { response: r }, ActionModel::Generate)
    } else {
        place(c, r)
    }
}

/// A response that says that predicates could not be generated.
pub open spec fn marked(r: RecordedModel, kind: Seq<char>) -> RecordedModel {
    RecordedModel { headers: r.headers.push(("x-rift-generator-error"@, kind)), ..r }
}

/// What follows an event.
pub open spec fn stepped(p: PhaseModel, e: EventModel, c: ProxyResponse) -> (
    PhaseModel,
    ActionModel,
) {
    match (p, e) {
        (PhaseModel::Claiming, EventModel::ClaimAnswered(a)) => match a {
            ClaimAnswer::AlreadyRecorded => (PhaseModel::LookingUp, ActionModel::LookUp),
            ClaimAnswer::Claimed => (
                PhaseModel::Forwarding { holding: true },
                ActionModel::Forward,
            ),
            _ => (PhaseModel::Forwarding { holding: false }, ActionModel::Forward),
        },
        (PhaseModel::LookingUp, EventModel::LookedUp(found)) => match found {
            Some(r) => (PhaseModel::Finished, ActionModel::Reply(r)),
            None => (PhaseModel::Forwarding { holding: false }, ActionModel::Forward),
        },
        (PhaseModel::Forwarding { holding }, EventModel::Forwarded(Err(error))) => if holding {
            (PhaseModel::Failing { error }, ActionModel::Release)
        } else {
            (PhaseModel::Finished, ActionModel::Fail(error))
        },
        (PhaseModel::Forwarding { holding }, EventModel::Forwarded(Ok(r))) => if holding {
            (
                PhaseModel::Recording { response: r },
                ActionModel::Record(as_recorded(c, r)),
            )
        } else {
            settled(c, r)
        },
        (PhaseModel::Failing { error }, EventModel::Released) => (
            PhaseModel::Finished,
            ActionModel::Fail(error),
        ),
        (PhaseModel::Recording { response }, EventModel::Recorded(ok)) => if ok {
            settled(c, response)
        } else {
            (PhaseModel::Releasing { response }, ActionModel::Release)
        },
        (PhaseModel::Releasing { response }, EventModel::Released) => settled(c, response),
        (PhaseModel::Generating { response }, EventModel::Generated(failure)) => match failure {
            Some(kind) => (
                PhaseModel::Finished,
                ActionModel::Reply(marked(as_recorded(c, response), kind)),
            ),
            None => place(c, response),
        },
        (PhaseModel::Placing { response }, EventModel::Placed) => (
            PhaseModel::Finished,
            ActionModel::Reply(as_recorded(c, response)),
        ),
        _ => (PhaseModel::Finished, ActionModel::Fail(Seq::empty())),
    }
}

fn latency_kept(c: &ProxyResponse, latency_ms: u64) -> (r: Option<u64>)
    ensures
        r == kept_latency(*c, latency_ms),
{
    if c.add_wait_behavior {
        Some(latency_ms)
    } else {
        None
    }
}

fn record_of(c: &ProxyResponse, r: &UpstreamResponse) -> (out: RecordedResponse)
    ensures
        out@ == as_recorded(*c, r@),
{
    RecordedResponse {
        status: r.status,
        headers: lookup::copy_list(&r.headers),
        body: headers::copy_bytes(&r.body),
        latency_ms: latency_kept(c, r.latency_ms),
    }
}

fn begin_placing(c: &ProxyResponse, response: UpstreamResponse) -> (r: (ProxyPhase, ProxyAction))
    ensures
        (r.0@, r.1@) == place(*c, response@),
{
    let mode: String = if c.mode.as_str().is_empty() {
        "proxyOnce".to_owned()
    } else {
        c.mode.as_str().to_owned()
    };
    let latency_ms: Option<u64> = latency_kept(c, response.latency_ms);
    (ProxyPhase::Placing { response }, ProxyAction::Place { mode, latency_ms })
}

fn settle(c: &ProxyResponse, response: UpstreamResponse) -> (r: (ProxyPhase, ProxyAction))
    ensures
        (r.0@, r.1@) == settled(*c, response@),
{
    let generating: bool = c.predicate_generators.len() > 0;
    if !generating && !c.add_wait_behavior && c.add_decorate_behavior.is_none() {
        return (ProxyPhase::Finished, ProxyAction::Reply(record_of(c, &response)));
    }
    if generating {
        (ProxyPhase::Generating { response }, ProxyAction::Generate)
    } else {
        begin_placing(c, response)
    }
}

/// What follows an event.
pub fn proxy_step(phase: ProxyPhase, event: ProxyEvent, c: &ProxyResponse) -> (r: (
    ProxyPhase,
    ProxyAction,
))
    requires
        answers(phase@, event@),
    ensures
        (r.0@, r.1@) == stepped(phase@, event@, *c),
        phase is LookingUp && event->LookedUp_0 is Some ==> r.0 is Finished && r.1
            == ProxyAction::Reply(event->LookedUp_0->0),
        phase is Claiming && event == ProxyEvent::ClaimAnswered(ClaimAnswer::AlreadyRecorded)
            ==> r.0 is LookingUp && r.1 is LookUp,
{
    match (phase, event) {
        (ProxyPhase::Claiming, ProxyEvent::ClaimAnswered(a)) => match a {
            ClaimAnswer::AlreadyRecorded => (ProxyPhase::LookingUp, ProxyAction::LookUp),
            ClaimAnswer::Claimed => (
                ProxyPhase::Forwarding { holding: true },
                ProxyAction::Forward,
            ),
            _ => (ProxyPhase::Forwarding { holding: false }, ProxyAction::Forward),
        },
        (ProxyPhase::LookingUp, ProxyEvent::LookedUp(found)) => match found {
            Some(r) => (ProxyPhase::Finished, ProxyAction::Reply(r)),
            None => (ProxyPhase::Forwarding { holding: false }, ProxyAction::Forward),
        },
        (ProxyPhase::Forwarding { holding }, ProxyEvent::Forwarded(answer)) => match answer {
            Err(error) => if holding {
                (ProxyPhase::Failing { error }, ProxyAction::Release)
            } else {
                (ProxyPhase::Finished, ProxyAction::Fail(error))
            },
            Ok(response) => if holding {
                let kept: RecordedResponse = record_of(c, &response);
                (ProxyPhase::Recording { response }, ProxyAction::Record(kept))
            } else {
                settle(c, response)
            },
        },
        (ProxyPhase::Failing { error }, ProxyEvent::Released) => (
            ProxyPhase::Finished,
            ProxyAction::Fail(error),
        ),
        (ProxyPhase::Recording { response }, ProxyEvent::Recorded(ok)) => if ok {
            settle(c, response)
        } else {
            (ProxyPhase::Releasing { response }, ProxyAction::Release)
        },
        (ProxyPhase::Releasing { response }, ProxyEvent::Released) => settle(c, response),
        (ProxyPhase::Generating { response }, ProxyEvent::Generated(failure)) => match failure {
            Some(kind) => {
                let mut reply: RecordedResponse = record_of(c, &response);
                let ghost had = reply.headers@;
                let ghost k = kind@;
                reply.headers.push(("x-rift-generator-error".to_owned(), kind));
                proof {
                    assert(lookup::pairs(reply.headers@) =~= lookup::pairs(had).push(
                        ("x-rift-generator-error"@, k),
                    ));
                }
                (ProxyPhase::Finished, ProxyAction::Reply(reply))
            },
            None => begin_placing(c, response),
        },
        (ProxyPhase::Placing { response }, ProxyEvent::Placed) => (
            ProxyPhase::Finished,
            ProxyAction::Reply(record_of(c, &response)),
        ),
        _ => (ProxyPhase::Finished, ProxyAction::Fail(Vec::new())),
    }
}

/// Whether a claim on recording is open.
pub open spec fn claim_open(p: PhaseModel) -> bool {
    match p {
        PhaseModel::Forwarding { holding } => holding,
        PhaseModel::Failing { error } => true,
        PhaseModel::Recording { response } => true,
        PhaseModel::Releasing { response } => true,
        _ => false,
    }
}

/// A claim is taken where it is granted, and ends only by a recording that succeeded or by being
/// given back: no proxied request ends with its claim open.
pub proof fn law_claims_are_settled(p: PhaseModel, e: EventModel, c: ProxyResponse)
    requires
        answers(p, e),
    ensures
        !claim_open(p) && claim_open(stepped(p, e, c).0) ==> e == EventModel::ClaimAnswered(
            ClaimAnswer::Claimed,
        ),
        claim_open(p) && !claim_open(stepped(p, e, c).0) ==> e == EventModel::Recorded(true)
            || e is Released,
        stepped(p, e, c).1 is Reply || stepped(p, e, c).1 is Fail ==> stepped(p, e, c).0
            is Finished,
        stepped(p, e, c).0 is Finished ==> stepped(p, e, c).1 is Reply || stepped(
            p,
            e,
            c,
        ).1 is Fail,
{
}

/// A response is recorded under a claim only, and a stub is never made of one whose predicates
/// could not be generated.
pub proof fn law_nothing_is_recorded_unasked(p: PhaseModel, e: EventModel, c: ProxyResponse)
    requires
        answers(p, e),
    ensures
        stepped(p, e, c).1 is Record ==> p == (PhaseModel::Forwarding { holding: true }),
        e matches EventModel::Generated(Some(_)) ==> !(stepped(p, e, c).1 is Place),
{
}

/// How many answers a request still waits for, at most.
pub open spec fn remaining(p: PhaseModel) -> nat {
    match p {
        PhaseModel::Claiming => 7,
        PhaseModel::LookingUp => 6,
        PhaseModel::Forwarding { holding } => 5,
        PhaseModel::Failing { error } => 1,
        PhaseModel::Recording { response } => 4,
        PhaseModel::Releasing { response } => 3,
        PhaseModel::Generating { response } => 2,
        PhaseModel::Placing { response } => 1,
        PhaseModel::Finished => 0,
    }
}

/// Every answer brings a proxied request nearer to its end.
pub proof fn law_every_answer_is_progress(p: PhaseModel, e: EventModel, c: ProxyResponse)
    requires
        answers(p, e),
    ensures
        remaining(stepped(p, e, c).0) < remaining(p),
{
}

/// A request that is recorded already is looked up, and what the lookup finds is the reply, as it
/// was recorded: nothing is forwarded. Only where the lookup finds nothing is the request
/// forwarded, and then it is not recorded.
pub proof fn law_recorded_responses_are_replayed(found: Option<RecordedModel>, c: ProxyResponse)
    ensures
        ({
            let (p, a) = stepped(
                PhaseModel::Claiming,
                EventModel::ClaimAnswered(ClaimAnswer::AlreadyRecorded),
                c,
            );
            let (q, b) = stepped(p, EventModel::LookedUp(found), c);
            &&& p is LookingUp && a is LookUp
            &&& found matches Some(r) ==> {
                &&& q is Finished && b is Reply && b !is Forward
                &&& b->Reply_0.status == r.status
                &&& b->Reply_0.headers == r.headers
                &&& b->Reply_0.body == r.body
                &&& b->Reply_0.latency_ms == r.latency_ms
            }
            &&& found is None ==> q == (PhaseModel::Forwarding { holding: false }) && b is Forward
        }),
{
}

/// A claim that is granted forwards the request and holds the right to record it. One that is not,
/// because another request holds it or the store cannot be asked, forwards all the same, and
/// records nothing.
pub proof fn law_every_unrecorded_request_is_forwarded(answer: ClaimAnswer, c: ProxyResponse)
    requires
        answer != ClaimAnswer::AlreadyRecorded,
    ensures
        ({
            let (p, a) = stepped(PhaseModel::Claiming, EventModel::ClaimAnswered(answer), c);
            &&& a is Forward
            &&& p matches PhaseModel::Forwarding { holding } && (holding <==> answer
                == ClaimAnswer::Claimed)
        }),
{
}

/// A request that cannot be forwarded fails with the upstream's error, and never with a reply. A
/// claim that it held is released first.
pub proof fn law_upstream_errors_are_handed_on(
    holding: bool,
    error: Seq<Seq<char>>,
    c: ProxyResponse,
)
    ensures
        ({
            let (p, a) = stepped(
                PhaseModel::Forwarding { holding },
                EventModel::Forwarded(Err(error)),
                c,
            );
            let (q, b) = stepped(p, EventModel::Released, c);
            &&& !holding ==> p is Finished && a == ActionModel::Fail(error)
            &&& holding ==> a is Release && q is Finished && b == ActionModel::Fail(error)
        }),
{
}

/// What was forwarded under a claim is recorded as the upstream sent it: its status, its header
/// lines and its body; with its latency where the proxy is to keep it, and with none where it is
/// not. A recording that fails releases the claim.
pub proof fn law_claimed_answers_are_recorded(r: UpstreamModel, c: ProxyResponse)
    ensures
        ({
            let (p, a) = stepped(
                PhaseModel::Forwarding { holding: true },
                EventModel::Forwarded(Ok(r)),
                c,
            );
            let (q, b) = stepped(p, EventModel::Recorded(false), c);
            &&& p is Recording && a is Record
            &&& a->Record_0.status == r.status
            &&& a->Record_0.headers == r.headers
            &&& a->Record_0.body == r.body
            &&& c.add_wait_behavior ==> a->Record_0.latency_ms == Some(r.latency_ms)
            &&& !c.add_wait_behavior ==> a->Record_0.latency_ms is None
            &&& q is Releasing && b is Release
        }),
{
}

/// Whether and however a response was recorded, what follows is the same; and a proxy that makes no
/// stubs replies with what the upstream sent.
pub proof fn law_recording_does_not_change_the_reply(r: UpstreamModel, c: ProxyResponse)
    ensures
        ({
            let unclaimed = stepped(
                PhaseModel::Forwarding { holding: false },
                EventModel::Forwarded(Ok(r)),
                c,
            );
            let recording = stepped(
                PhaseModel::Forwarding { holding: true },
                EventModel::Forwarded(Ok(r)),
                c,
            );
            let recorded = stepped(recording.0, EventModel::Recorded(true), c);
            let releasing = stepped(recording.0, EventModel::Recorded(false), c);
            let released = stepped(releasing.0, EventModel::Released, c);
            &&& recorded == unclaimed
            &&& released == unclaimed
            &&& (c.predicate_generators@.len() == 0 && !c.add_wait_behavior
                && c.add_decorate_behavior is None) ==> {
                &&& unclaimed.0 is Finished && unclaimed.1 is Reply
                &&& unclaimed.1->Reply_0.status == r.status
                &&& unclaimed.1->Reply_0.headers == r.headers
                &&& unclaimed.1->Reply_0.body == r.body
                &&& unclaimed.1->Reply_0.latency_ms is None
            }
        }),
{
}

/// A proxy with predicate generators generates before it places a stub. One that only waits or
/// decorates places at once. A stub is placed by the mode that the proxy names, or as for
/// `proxyOnce` where it names none, and the reply that follows is what the upstream sent.
pub proof fn law_stubs_are_placed_before_the_reply(r: UpstreamModel, c: ProxyResponse)
    requires
        c.predicate_generators@.len() > 0 || c.add_wait_behavior || c.add_decorate_behavior
            is Some,
    ensures
        ({
            let first = stepped(
                PhaseModel::Forwarding { holding: false },
                EventModel::Forwarded(Ok(r)),
                c,
            );
            let second = stepped(first.0, EventModel::Generated(None), c);
            let placing = if c.predicate_generators@.len() > 0 {
                second
            } else {
                first
            };
            let last = stepped(placing.0, EventModel::Placed, c);
            &&& c.predicate_generators@.len() > 0 ==> first.0 is Generating && first.1 is Generate
            &&& placing.0 is Placing && placing.1 is Place
            &&& c.mode@.len() > 0 ==> placing.1->mode == c.mode@
            &&& c.mode@.len() == 0 ==> placing.1->mode == "proxyOnce"@
            &&& c.add_wait_behavior ==> placing.1->latency_ms == Some(r.latency_ms)
            &&& !c.add_wait_behavior ==> placing.1->latency_ms is None
            &&& last.0 is Finished && last.1 is Reply
            &&& last.1->Reply_0.status == r.status
            &&& last.1->Reply_0.headers == r.headers
            &&& last.1->Reply_0.body == r.body
            &&& c.add_wait_behavior ==> last.1->Reply_0.latency_ms == Some(r.latency_ms)
            &&& !c.add_wait_behavior ==> last.1->Reply_0.latency_ms is None
        }),
{
}

/// Where predicates cannot be generated, the reply is what the upstream sent with one more header
/// line, which names the failure, and no stub is placed.
pub proof fn law_generator_failures_are_told(r: UpstreamModel, kind: Seq<char>, c: ProxyResponse)
    ensures
        ({
            let (p, a) = stepped(
                PhaseModel::Generating { response: r },
                EventModel::Generated(Some(kind)),
                c,
            );
            &&& p is Finished && a is Reply
            &&& a->Reply_0.status == r.status
            &&& a->Reply_0.body == r.body
            &&& a->Reply_0.headers.len() == r.headers.len() + 1
            &&& a->Reply_0.headers.drop_last() == r.headers
            &&& a->Reply_0.headers.last() == ("x-rift-generator-error"@, kind)
            &&& c.add_wait_behavior ==> a->Reply_0.latency_ms == Some(r.latency_ms)
            &&& !c.add_wait_behavior ==> a->Reply_0.latency_ms is None
        }),
{
    assert(r.headers.push(("x-rift-generator-error"@, kind)).drop_last() =~= r.headers);
}

/// What an upstream sent, and what was recorded of it, are seen as they are: the status, every
/// header line, the body and the latency.
pub proof fn law_answers_are_seen_as_they_are(u: UpstreamResponse, r: RecordedResponse, i: int)
    ensures
        u@.status == u.status && u@.body == u.body@ && u@.latency_ms == u.latency_ms,
        u@.headers.len() == u.headers@.len(),
        0 <= i < u.headers@.len() ==> u@.headers[i] == (u.headers@[i].0@, u.headers@[i].1@),
        r@.status == r.status && r@.body == r.body@ && r@.latency_ms == r.latency_ms,
        r@.headers.len() == r.headers@.len(),
        0 <= i < r.headers@.len() ==> r@.headers[i] == (r.headers@[i].0@, r.headers@[i].1@),
{
}

} // verus!
