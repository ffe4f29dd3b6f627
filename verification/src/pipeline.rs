//! What is done to a response before it is served: wait, copy, lookup, decorate and the shell
//! transforms, in that order.
//!
//! Waiting, substituting, scripts and commands run outside; which comes next, what becomes of the
//! response, and what a failure means, is decided here. A failed script or command is a failure of
//! the response where behaviors are strict. Where they are lenient, the response is served as if
//! the behavior was not configured, with a header that says so.

use crate::json;
use crate::lookup;
use crate::record;
use crate::responses;
use crate::responses::{ResponseModel, ServedResponse};
use crate::text;
use crate::types::ResponseBehaviors;
use vstd::prelude::*;

verus! {

/// A response while behaviors work on it.
#[derive(Debug)]
pub struct ServedParts {
    pub status: u16,
    /// One entry per header name, one value per header line.
    pub headers: Vec<(String, Vec<String>)>,
    pub body: String,
}

/// A response while behaviors work on it, as contracts see it.
pub struct PartsModel {
    pub status: u16,
    pub headers: Seq<(Seq<char>, Seq<Seq<char>>)>,
    pub body: Seq<char>,
}

impl ServedParts {
    /// The parts as contracts see them.
    pub open spec fn view(&self) -> PartsModel {
        PartsModel {
            status: self.status,
            headers: record::header_lines(self.headers@),
            body: self.body@,
        }
    }
}

/// The behavior whose turn it is.
#[derive(Clone, Copy, Debug, PartialEq, Eq, Structural)]
pub enum BehaviorStage {
    Wait,
    Copy,
    Lookup,
    Decorate,
    /// The shell command at this position.
    Transform { at: usize },
}

/// What a behavior came to.
#[derive(Debug)]
pub enum BehaviorEvent {
    Waited,
    /// Values were put in for the tokens of the headers and the body.
    Substituted { headers: Vec<(String, Vec<String>)>, body: String },
    /// The script handed back a response.
    Decorated { status: u16, headers: Vec<(String, String)>, body: String },
    DecorateFailed { timed_out: bool, message: String },
    /// The command printed a body.
    Transformed { output: String },
    TransformFailed { message: String },
}

/// What a behavior came to, as contracts see it.
pub enum EventModel {
    Waited,
    Substituted { headers: Seq<(Seq<char>, Seq<Seq<char>>)>, body: Seq<char> },
    Decorated { status: u16, headers: Seq<(Seq<char>, Seq<char>)>, body: Seq<char> },
    DecorateFailed { timed_out: bool, message: Seq<char> },
    Transformed { output: Seq<char> },
    TransformFailed { message: Seq<char> },
}

impl BehaviorEvent {
    /// The event as contracts see it.
    pub open spec fn view(&self) -> EventModel {
        match self {
            BehaviorEvent::Waited => EventModel::Waited,
            BehaviorEvent::Substituted { headers, body } => EventModel::Substituted {
                headers: record::header_lines(headers@),
                body: body@,
            },
            BehaviorEvent::Decorated { status, headers, body } => EventModel::Decorated {
                status: *status,
                headers: lookup::pairs(headers@),
                body: body@,
            },
            BehaviorEvent::DecorateFailed { timed_out, message } => EventModel::DecorateFailed {
                timed_out: *timed_out,
                message: message@,
            },
            BehaviorEvent::Transformed { output } => EventModel::Transformed { output: output@ },
            BehaviorEvent::TransformFailed { message } => EventModel::TransformFailed {
                message: message@,
            },
        }
    }
}

/// Whether an event answers a behavior.
pub open spec fn answers(stage: BehaviorStage, event: EventModel) -> bool {
    match stage {
        BehaviorStage::Wait => event is Waited,
        BehaviorStage::Copy | BehaviorStage::Lookup => event is Substituted,
        BehaviorStage::Decorate => event is Decorated || event is DecorateFailed,
        BehaviorStage::Transform { at: _ } => event is Transformed || event is TransformFailed,
    }
}

/// A response on its way through the behaviors.
#[derive(Debug)]
pub struct BehaviorRun {
    /// The behavior that is being waited for.
    pub stage: BehaviorStage,
    pub parts: ServedParts,
    /// Whether a behavior failed and was left out.
    pub degraded: bool,
}

/// What running the behaviors came to.
#[derive(Debug)]
pub enum BehaviorOutcome {
    /// The response to serve, and whether a behavior failed and was left out.
    Applied { parts: ServedParts, degraded: bool },
    /// A behavior failed where that is not tolerated: this is served instead.
    StrictFailure(ServedResponse),
}

/// What comes next.
#[derive(Debug)]
pub enum BehaviorStep {
    /// A behavior has to run.
    Run(BehaviorRun),
    Done(BehaviorOutcome),
}

/// What comes next, as contracts see it.
pub enum StepModel {
    Run { stage: BehaviorStage, parts: PartsModel, degraded: bool },
    Applied { parts: PartsModel, degraded: bool },
    StrictFailure(ResponseModel),
}

impl BehaviorStep {
    /// The step as contracts see it.
    pub open spec fn view(&self) -> StepModel {
        match self {
            BehaviorStep::Run(run) => StepModel::Run {
                stage: run.stage,
                parts: run.parts@,
                degraded: run.degraded,
            },
            BehaviorStep::Done(BehaviorOutcome::Applied { parts, degraded }) => StepModel::Applied {
                parts: parts@,
                degraded: *degraded,
            },
            BehaviorStep::Done(BehaviorOutcome::StrictFailure(response)) => StepModel::StrictFailure(
                response@,
            ),
        }
    }
}

/// The first shell command from a position on.
pub open spec fn transform_from(b: ResponseBehaviors, at: int) -> Option<BehaviorStage> {
    if at < b.shell_transform@.len() {
        Some(BehaviorStage::Transform { at: at as usize })
    } else {
        None
    }
}

/// The first configured behavior from decorate on.
pub open spec fn decorate_from(b: ResponseBehaviors) -> Option<BehaviorStage> {
    if b.decorate is Some {
        Some(BehaviorStage::Decorate)
    } else {
        transform_from(b, 0)
    }
}

/// The first configured behavior from lookup on.
pub open spec fn lookup_from(b: ResponseBehaviors) -> Option<BehaviorStage> {
    if b.lookup@.len() > 0 {
        Some(BehaviorStage::Lookup)
    } else {
        decorate_from(b)
    }
}

/// The first configured behavior from copy on.
pub open spec fn copy_from(b: ResponseBehaviors) -> Option<BehaviorStage> {
    if b.copy@.len() > 0 {
        Some(BehaviorStage::Copy)
    } else {
        lookup_from(b)
    }
}

/// The first configured behavior; a wait of no milliseconds is none.
pub open spec fn wait_from(b: ResponseBehaviors, wait_ms: u64) -> Option<BehaviorStage> {
    if b.wait is Some && wait_ms > 0 {
        Some(BehaviorStage::Wait)
    } else {
        copy_from(b)
    }
}

/// The next behavior runs, or the response is ready.
pub open spec fn on_to(
    next: Option<BehaviorStage>,
    parts: PartsModel,
    degraded: bool,
) -> StepModel {
    match next {
        Some(stage) => StepModel::Run { stage, parts, degraded },
        None => StepModel::Applied { parts, degraded },
    }
}

/// Whether a header is `Set-Cookie`, whose lines are never folded into one.
pub open spec fn is_cookie(name: Seq<char>) -> bool {
    text::text_eq(name, "set-cookie"@, false)
}

/// The headers as a script sees them: one value for each name, no cookies.
pub open spec fn single_values(headers: Seq<(Seq<char>, Seq<Seq<char>>)>) -> Seq<
    (Seq<char>, Seq<char>),
>
    decreases headers.len(),
{
    if headers.len() == 0 {
        Seq::empty()
    } else if is_cookie(headers.last().0) {
        single_values(headers.drop_last())
    } else {
        single_values(headers.drop_last()).push((headers.last().0, record::joined(headers.last().1, ", "@)))
    }
}

/// The cookies, line by line.
pub open spec fn cookies(headers: Seq<(Seq<char>, Seq<Seq<char>>)>) -> Seq<
    (Seq<char>, Seq<Seq<char>>),
>
    decreases headers.len(),
{
    if headers.len() == 0 {
        Seq::empty()
    } else if is_cookie(headers.last().0) {
        cookies(headers.drop_last()).push(headers.last())
    } else {
        cookies(headers.drop_last())
    }
}

/// Single values as header lines.
pub open spec fn as_lines(headers: Seq<(Seq<char>, Seq<char>)>) -> Seq<
    (Seq<char>, Seq<Seq<char>>),
> {
    Seq::new(headers.len(), |i: int| (headers[i].0, seq![headers[i].1]))
}

/// Whether a script set cookies of its own.
pub open spec fn sets_cookies(headers: Seq<(Seq<char>, Seq<char>)>) -> bool {
    lookup::find_entry(headers, "set-cookie"@, false) is Some
}

/// The headers after a script: the script's own, and the cookies that were there unless the script
/// set some.
pub open spec fn decorated_headers(
    before: Seq<(Seq<char>, Seq<Seq<char>>)>,
    script: Seq<(Seq<char>, Seq<char>)>,
) -> Seq<(Seq<char>, Seq<Seq<char>>)> {
    if sets_cookies(script) {
        as_lines(script)
    } else {
        as_lines(script) + cookies(before)
    }
}

/// The headers with a marker.
pub open spec fn marked(
    headers: Seq<(Seq<char>, Seq<Seq<char>>)>,
    marker: Seq<char>,
) -> Seq<(Seq<char>, Seq<Seq<char>>)> {
    json::with_entry(headers, marker, seq!["true"@])
}

/// The headers of a response whose decoration failed and was left out.
pub open spec fn undecorated(
    headers: Seq<(Seq<char>, Seq<Seq<char>>)>,
    timed_out: bool,
) -> Seq<(Seq<char>, Seq<Seq<char>>)> {
    if timed_out {
        marked(marked(headers, "x-rift-decorate-error"@), "x-rift-script-timeout"@)
    } else {
        marked(headers, "x-rift-decorate-error"@)
    }
}

/// What is served where decorating failed and that is not tolerated; a script that took too long
/// may be tried again.
pub open spec fn decorate_failure(timed_out: bool, message: Seq<char>) -> ResponseModel {
    let status: u16 = if timed_out {
        504
    } else {
        500
    };
    let base = responses::marked_failure(
        status,
        "x-rift-decorate-error"@,
        "decorate failed (strictBehaviors): "@ + message,
    );
    ResponseModel {
        headers: if timed_out {
            base.headers.push(responses::flag("x-rift-script-timeout"@))
        } else {
            base.headers
        },
        ..base
    }
}

/// What is served where a command failed and that is not tolerated.
pub open spec fn transform_failure(message: Seq<char>) -> ResponseModel {
    responses::marked_failure(
        500,
        "x-rift-shelltransform-error"@,
        "shellTransform failed (strictBehaviors): "@ + message,
    )
}

/// What comes after a behavior.
pub open spec fn resumed(
    stage: BehaviorStage,
    parts: PartsModel,
    degraded: bool,
    event: EventModel,
    b: ResponseBehaviors,
    strict: bool,
) -> StepModel {
    match (stage, event) {
        (BehaviorStage::Copy, EventModel::Substituted { headers, body }) => on_to(
            lookup_from(b),
            PartsModel { status: parts.status, headers, body },
            degraded,
        ),
        (BehaviorStage::Lookup, EventModel::Substituted { headers, body }) => on_to(
            decorate_from(b),
            PartsModel { status: parts.status, headers, body },
            degraded,
        ),
        (BehaviorStage::Decorate, EventModel::Decorated { status, headers, body }) => on_to(
            transform_from(b, 0),
            PartsModel { status, headers: decorated_headers(parts.headers, headers), body },
            degraded,
        ),
        (BehaviorStage::Decorate, EventModel::DecorateFailed { timed_out, message }) => if strict {
            StepModel::StrictFailure(decorate_failure(timed_out, message))
        } else {
            on_to(
                transform_from(b, 0),
                PartsModel { headers: undecorated(parts.headers, timed_out), ..parts },
                true,
            )
        },
        (BehaviorStage::Transform { at }, EventModel::Transformed { output }) => on_to(
            transform_from(b, at as int + 1),
            PartsModel { body: output, ..parts },
            degraded,
        ),
        (BehaviorStage::Transform { at }, EventModel::TransformFailed { message }) => if strict {
            StepModel::StrictFailure(transform_failure(message))
        } else {
            on_to(
                transform_from(b, at as int + 1),
                PartsModel {
                    headers: marked(parts.headers, "x-rift-shelltransform-error"@),
                    ..parts
                },
                true,
            )
        },
        _ => on_to(copy_from(b), parts, degraded),
    }
}

fn cookie_name(name: &str) -> (r: bool)
    ensures
        r == is_cookie(name@),
{
    text::texts_equal(name, "set-cookie", false)
}

/// The headers as a script sees them: one value for each name, no cookies.
pub fn script_headers(headers: &Vec<(String, Vec<String>)>) -> (r: Vec<(String, String)>)
    ensures
        lookup::pairs(r@) == single_values(record::header_lines(headers@)),
{
    let ghost all = record::header_lines(headers@);
    let mut out: Vec<(String, String)> = Vec::new();
    let mut i: usize = 0;
    proof {
        assert(lookup::pairs(out@) =~= single_values(all.take(0)));
    }
    while i < headers.len()
        invariant
            i <= headers@.len(),
            all == record::header_lines(headers@),
            lookup::pairs(out@) == single_values(all.take(i as int)),
        decreases headers@.len() - i,
    {
        let h = &headers[i];
        proof {
            assert(all.take(i + 1).drop_last() =~= all.take(i as int));
            assert(all.take(i + 1).last() == all[i as int]);
        }
        if !cookie_name(h.0.as_str()) {
            let ghost had = out@;
            out.push((h.0.as_str().to_owned(), record::join_texts(&h.1, ", ")));
            proof {
                assert(lookup::pairs(out@) =~= lookup::pairs(had).push(
                    (all[i as int].0, record::joined(all[i as int].1, ", "@)),
                ));
            }
        }
        i += 1;
    }
    proof {
        assert(all.take(all.len() as int) =~= all);
    }
    out
}

fn cookie_lines(headers: &Vec<(String, Vec<String>)>) -> (r: Vec<(String, Vec<String>)>)
    ensures
        record::header_lines(r@) == cookies(record::header_lines(headers@)),
{
    let ghost all = record::header_lines(headers@);
    let mut out: Vec<(String, Vec<String>)> = Vec::new();
    let mut i: usize = 0;
    proof {
        assert(record::header_lines(out@) =~= cookies(all.take(0)));
    }
    while i < headers.len()
        invariant
            i <= headers@.len(),
            all == record::header_lines(headers@),
            record::header_lines(out@) == cookies(all.take(i as int)),
        decreases headers@.len() - i,
    {
        let h = &headers[i];
        proof {
            assert(all.take(i + 1).drop_last() =~= all.take(i as int));
            assert(all.take(i + 1).last() == all[i as int]);
        }
        if cookie_name(h.0.as_str()) {
            let ghost had = out@;
            out.push((h.0.as_str().to_owned(), record::copy_texts(&h.1)));
            proof {
                assert(record::header_lines(out@) =~= record::header_lines(had).push(
                    all[i as int],
                ));
            }
        }
        i += 1;
    }
    proof {
        assert(all.take(all.len() as int) =~= all);
    }
    out
}

/// Header lines, each under a name of its own.
pub(crate) fn lines_of(headers: &Vec<(String, String)>) -> (r: Vec<(String, Vec<String>)>)
    ensures
        record::header_lines(r@) == as_lines(lookup::pairs(headers@)),
{
    let mut out: Vec<(String, Vec<String>)> = Vec::new();
    let mut i: usize = 0;
    while i < headers.len()
        invariant
            i <= headers@.len(),
            out@.len() == i,
            forall|k: int|
                0 <= k < i ==> (#[trigger] out@[k]).0@ == headers@[k].0@ && record::texts(
                    out@[k].1@,
                ) == seq![headers@[k].1@],
        decreases headers@.len() - i,
    {
        let h = &headers[i];
        let mut values: Vec<String> = Vec::new();
        values.push(h.1.as_str().to_owned());
        proof {
            assert(record::texts(values@) =~= seq![headers@[i as int].1@]);
        }
        out.push((h.0.as_str().to_owned(), values));
        i += 1;
    }
    proof {
        assert(record::header_lines(out@) =~= as_lines(lookup::pairs(headers@)));
    }
    out
}

fn merge_decorated(before: &Vec<(String, Vec<String>)>, script: &Vec<(String, String)>) -> (r: Vec<
    (String, Vec<String>),
>)
    ensures
        record::header_lines(r@) == decorated_headers(
            record::header_lines(before@),
            lookup::pairs(script@),
        ),
{
    let mut out = lines_of(script);
    match lookup::position(script, "set-cookie", false) {
        Some(_) => {},
        None => {
            let ghost had = out@;
            let mut held = cookie_lines(before);
            let ghost extra = held@;
            out.append(&mut held);
            proof {
                assert(record::header_lines(out@) =~= record::header_lines(had)
                    + record::header_lines(extra));
            }
        },
    }
    out
}

fn mark(headers: Vec<(String, Vec<String>)>, marker: &str) -> (r: Vec<(String, Vec<String>)>)
    ensures
        record::header_lines(r@) == marked(record::header_lines(headers@), marker@),
{
    let ghost before = record::header_lines(headers@);
    let mut out = headers;
    let ghost had = out@;
    let mut values: Vec<String> = Vec::new();
    values.push("true".to_owned());
    proof {
        assert(record::texts(values@) =~= seq!["true"@]);
    }
    let mut i: usize = 0;
    while i < out.len()
        invariant
            out@ == had,
            had == headers@,
            before == record::header_lines(had),
            i <= had.len(),
            record::texts(values@) == seq!["true"@],
            forall|j: int| 0 <= j < i ==> (#[trigger] before[j]).0 != marker@,
        decreases had.len() - i,
    {
        if text::same_text(out[i].0.as_str(), marker) {
            out.set(i, (marker.to_owned(), values));
            proof {
                json::lemma_with_entry_at(before, marker@, seq!["true"@], i as int);
                assert(record::header_lines(out@) =~= before.update(
                    i as int,
                    (marker@, seq!["true"@]),
                ));
            }
            return out;
        }
        i += 1;
    }
    out.push((marker.to_owned(), values));
    proof {
        json::lemma_with_entry_new(before, marker@, seq!["true"@]);
        assert(record::header_lines(out@) =~= before.push((marker@, seq!["true"@])));
    }
    out
}

fn decorate_failure_response(timed_out: bool, message: &str) -> (r: ServedResponse)
    ensures
        r@ == decorate_failure(timed_out, message@),
{
    let mut m: String = "decorate failed (strictBehaviors): ".to_owned();
    m.append(message);
    let status: u16 = if timed_out {
        504
    } else {
        500
    };
    let mut r = responses::marked_failure_response(status, "x-rift-decorate-error", m.as_str());
    if timed_out {
        let ghost had = r.headers@;
        r.headers.push(("x-rift-script-timeout".to_owned(), "true".to_owned()));
        proof {
            assert(lookup::pairs(r.headers@) =~= lookup::pairs(had).push(
                responses::flag("x-rift-script-timeout"@),
            ));
        }
    }
    r
}

fn go_on(next: Option<BehaviorStage>, parts: ServedParts, degraded: bool) -> (r: BehaviorStep)
    ensures
        r@ == on_to(next, parts@, degraded),
        (match r {
            BehaviorStep::Run(run) => run.parts == parts && run.degraded == degraded,
            BehaviorStep::Done(BehaviorOutcome::Applied { parts: p, degraded: d }) => p == parts
                && d == degraded,
            _ => false,
        }),
{
    match next {
        Some(stage) => BehaviorStep::Run(BehaviorRun { stage, parts, degraded }),
        None => BehaviorStep::Done(BehaviorOutcome::Applied { parts, degraded }),
    }
}

fn transform_stage(b: &ResponseBehaviors, at: usize) -> (r: Option<BehaviorStage>)
    ensures
        r == transform_from(*b, at as int),
{
    if at < b.shell_transform.len() {
        Some(BehaviorStage::Transform { at })
    } else {
        None
    }
}

fn decorate_stage(b: &ResponseBehaviors) -> (r: Option<BehaviorStage>)
    ensures
        r == decorate_from(*b),
{
    if b.decorate.is_some() {
        Some(BehaviorStage::Decorate)
    } else {
        transform_stage(b, 0)
    }
}

fn lookup_stage(b: &ResponseBehaviors) -> (r: Option<BehaviorStage>)
    ensures
        r == lookup_from(*b),
{
    if b.lookup.len() > 0 {
        Some(BehaviorStage::Lookup)
    } else {
        decorate_stage(b)
    }
}

fn copy_stage(b: &ResponseBehaviors) -> (r: Option<BehaviorStage>)
    ensures
        r == copy_from(*b),
{
    if b.copy.len() > 0 {
        Some(BehaviorStage::Copy)
    } else {
        lookup_stage(b)
    }
}

/// The first step of a response through its behaviors. `wait_ms` is what the wait came to.
pub fn start_behaviors(parts: ServedParts, behaviors: &ResponseBehaviors, wait_ms: u64) -> (r:
    BehaviorStep)
    ensures
        r@ == on_to(wait_from(*behaviors, wait_ms), parts@, false),
{
    let next: Option<BehaviorStage> = if behaviors.wait.is_some() && wait_ms > 0 {
        Some(BehaviorStage::Wait)
    } else {
        copy_stage(behaviors)
    };
    go_on(next, parts, false)
}

impl BehaviorRun {
    /// Whether the stage is one of the configured ones.
    pub open spec fn within(&self, b: ResponseBehaviors) -> bool {
        match self.stage {
            BehaviorStage::Transform { at } => at < b.shell_transform@.len(),
            _ => true,
        }
    }

    /// The next step, once the behavior that was waited for has come to something.
    pub fn resume(self, event: BehaviorEvent, behaviors: &ResponseBehaviors, strict: bool) -> (r:
        BehaviorStep)
        requires
            answers(self.stage, event@),
            self.within(*behaviors),
        ensures
            r@ == resumed(self.stage, self.parts@, self.degraded, event@, *behaviors, strict),
            event is Substituted ==> (match r {
                BehaviorStep::Run(run) => run.parts.status == self.parts.status && run.parts.headers
                    == event->Substituted_headers && run.parts.body == event->Substituted_body,
                BehaviorStep::Done(BehaviorOutcome::Applied { parts, degraded: _ }) => parts.status
                    == self.parts.status && parts.headers == event->Substituted_headers
                    && parts.body == event->Substituted_body,
                _ => false,
            }),
    {
        let BehaviorRun { stage, parts, degraded } = self;
        proof {
            assert(behaviors.shell_transform.len() == behaviors.shell_transform@.len());
        }
        match event {
            BehaviorEvent::Waited => go_on(copy_stage(behaviors), parts, degraded),
            BehaviorEvent::Substituted { headers, body } => {
                let next: Option<BehaviorStage> = match stage {
                    BehaviorStage::Copy => lookup_stage(behaviors),
                    _ => decorate_stage(behaviors),
                };
                go_on(next, ServedParts { status: parts.status, headers, body }, degraded)
            },
            BehaviorEvent::Decorated { status, headers, body } => {
                let headers = merge_decorated(&parts.headers, &headers);
                go_on(
                    transform_stage(behaviors, 0),
                    ServedParts { status, headers, body },
                    degraded,
                )
            },
            BehaviorEvent::DecorateFailed { timed_out, message } => {
                if strict {
                    return BehaviorStep::Done(
                        BehaviorOutcome::StrictFailure(
                            decorate_failure_response(timed_out, message.as_str()),
                        ),
                    );
                }
                let headers = mark(parts.headers, "x-rift-decorate-error");
                let headers = if timed_out {
                    mark(headers, "x-rift-script-timeout")
                } else {
                    headers
                };
                go_on(
                    transform_stage(behaviors, 0),
                    ServedParts { status: parts.status, headers, body: parts.body },
                    true,
                )
            },
            BehaviorEvent::Transformed { output } => {
                let at: usize = match stage {
                    BehaviorStage::Transform { at } => at,
                    _ => 0,
                };
                go_on(
                    transform_stage(behaviors, at + 1),
                    ServedParts { status: parts.status, headers: parts.headers, body: output },
                    degraded,
                )
            },
            BehaviorEvent::TransformFailed { message } => {
                let at: usize = match stage {
                    BehaviorStage::Transform { at } => at,
                    _ => 0,
                };
                if strict {
                    let mut m: String = "shellTransform failed (strictBehaviors): ".to_owned();
                    m.append(message.as_str());
                    return BehaviorStep::Done(
                        BehaviorOutcome::StrictFailure(
                            responses::marked_failure_response(
                                500,
                                "x-rift-shelltransform-error",
                                m.as_str(),
                            ),
                        ),
                    );
                }
                let headers = mark(parts.headers, "x-rift-shelltransform-error");
                go_on(
                    transform_stage(behaviors, at + 1),
                    ServedParts { status: parts.status, headers, body: parts.body },
                    true,
                )
            },
        }
    }
}

/// Where behaviors are strict, no response is served that a failed behavior was left out of.
pub proof fn law_strict_serves_nothing_degraded(
    stage: BehaviorStage,
    parts: PartsModel,
    event: EventModel,
    b: ResponseBehaviors,
)
    requires
        answers(stage, event),
    ensures
        (match resumed(stage, parts, false, event, b, true) {
            StepModel::Run { stage: _, parts: _, degraded } => !degraded,
            StepModel::Applied { parts: _, degraded } => !degraded,
            StepModel::StrictFailure(_) => true,
        }),
        (event is DecorateFailed || event is TransformFailed) == (resumed(
            stage,
            parts,
            false,
            event,
            b,
            true,
        ) is StrictFailure),
{
}

/// Where behaviors are lenient, none of them fails a response; one that fails leaves the body and
/// the status as they were, and the rest of the behaviors still run.
pub proof fn law_lenient_never_fails(
    stage: BehaviorStage,
    parts: PartsModel,
    degraded: bool,
    event: EventModel,
    b: ResponseBehaviors,
)
    requires
        answers(stage, event),
    ensures
        !(resumed(stage, parts, degraded, event, b, false) is StrictFailure),
        event is DecorateFailed || event is TransformFailed ==> (match resumed(
            stage,
            parts,
            degraded,
            event,
            b,
            false,
        ) {
            StepModel::Run { stage: _, parts: after, degraded: d } => d && after.body == parts.body
                && after.status == parts.status,
            StepModel::Applied { parts: after, degraded: d } => d && after.body == parts.body
                && after.status == parts.status,
            StepModel::StrictFailure(_) => false,
        }),
{
}

/// Whether a header is there under this very name.
pub open spec fn carries(headers: Seq<(Seq<char>, Seq<Seq<char>>)>, name: Seq<char>) -> bool {
    exists|i: int| 0 <= i < headers.len() && (#[trigger] headers[i]).0 == name
}

/// Whether a response says that a behavior was left out of it.
pub open spec fn signals(headers: Seq<(Seq<char>, Seq<Seq<char>>)>) -> bool {
    carries(headers, "x-rift-decorate-error"@) || carries(headers, "x-rift-shelltransform-error"@)
}

proof fn lemma_marked(headers: Seq<(Seq<char>, Seq<Seq<char>>)>, marker: Seq<char>, name: Seq<char>)
    ensures
        carries(marked(headers, marker), marker),
        carries(headers, name) ==> carries(marked(headers, marker), name),
        forall|i: int|
            0 <= i < headers.len() && (#[trigger] headers[i]).0 != marker ==> marked(
                headers,
                marker,
            )[i] == headers[i],
        marked(headers, marker).len() >= headers.len(),
    decreases headers.len(),
{
    let after = marked(headers, marker);
    if headers.len() == 0 {
        assert(after[0].0 == marker);
    } else if headers[0].0 == marker {
        assert(after[0].0 == marker);
        if carries(headers, name) {
            let k = choose|k: int| 0 <= k < headers.len() && (#[trigger] headers[k]).0 == name;
            assert(after[k].0 == name);
        }
    } else {
        let rest = headers.drop_first();
        lemma_marked(rest, marker, name);
        let more = marked(rest, marker);
        assert(after =~= seq![headers[0]] + more);
        let m = choose|m: int| 0 <= m < more.len() && (#[trigger] more[m]).0 == marker;
        assert(after[m + 1].0 == marker);
        if carries(headers, name) {
            let k = choose|k: int| 0 <= k < headers.len() && (#[trigger] headers[k]).0 == name;
            if k == 0 {
                assert(after[0].0 == name);
            } else {
                assert(rest[k - 1].0 == name);
                let n = choose|n: int| 0 <= n < more.len() && (#[trigger] more[n]).0 == name;
                assert(after[n + 1].0 == name);
            }
        }
        assert forall|i: int| 0 <= i < headers.len() && (#[trigger] headers[i]).0 != marker implies
            after[i] == headers[i] by {
            if i > 0 {
                assert(rest[i - 1] == headers[i]);
                assert(after[i] == more[i - 1]);
            }
        }
    }
}

/// A response that a failed behavior was left out of says so, whatever runs after the failure.
pub proof fn law_degraded_responses_say_so(
    stage: BehaviorStage,
    parts: PartsModel,
    degraded: bool,
    event: EventModel,
    b: ResponseBehaviors,
    strict: bool,
)
    requires
        answers(stage, event),
        degraded ==> stage is Transform && signals(parts.headers),
    ensures
        (match resumed(stage, parts, degraded, event, b, strict) {
            StepModel::Run { stage: next, parts: after, degraded: d } => d ==> next is Transform
                && signals(after.headers),
            StepModel::Applied { parts: after, degraded: d } => d ==> signals(after.headers),
            StepModel::StrictFailure(_) => true,
        }),
{
    let d = "x-rift-decorate-error"@;
    let t = "x-rift-shelltransform-error"@;
    lemma_marked(parts.headers, d, d);
    lemma_marked(marked(parts.headers, d), "x-rift-script-timeout"@, d);
    lemma_marked(parts.headers, t, t);
}

/// A response whose decoration failed keeps every header line that it had, however many a name
/// has; only the markers are new.
pub proof fn law_a_failed_decorate_keeps_the_lines(
    headers: Seq<(Seq<char>, Seq<Seq<char>>)>,
    timed_out: bool,
    i: int,
)
    requires
        0 <= i < headers.len(),
        headers[i].0 != "x-rift-decorate-error"@,
        headers[i].0 != "x-rift-script-timeout"@,
    ensures
        i < undecorated(headers, timed_out).len(),
        undecorated(headers, timed_out)[i] == headers[i],
        carries(undecorated(headers, timed_out), "x-rift-decorate-error"@),
        timed_out ==> carries(undecorated(headers, timed_out), "x-rift-script-timeout"@),
{
    let d = "x-rift-decorate-error"@;
    lemma_marked(headers, d, d);
    let once = marked(headers, d);
    lemma_marked(once, "x-rift-script-timeout"@, d);
    assert(once[i] == headers[i]);
}

/// Cookies that were there come through a decoration line by line, unless the script set its own.
pub proof fn law_cookies_are_never_folded(
    before: Seq<(Seq<char>, Seq<Seq<char>>)>,
    script: Seq<(Seq<char>, Seq<char>)>,
    i: int,
)
    requires
        0 <= i < before.len(),
        is_cookie(before[i].0),
        !sets_cookies(script),
    ensures
        decorated_headers(before, script).contains(before[i]),
{
    lemma_held(before, i);
    let held = cookies(before);
    let k = choose|k: int| 0 <= k < held.len() && held[k] == before[i];
    assert(decorated_headers(before, script)[as_lines(script).len() + k] == before[i]);
}

proof fn lemma_held(before: Seq<(Seq<char>, Seq<Seq<char>>)>, i: int)
    requires
        0 <= i < before.len(),
        is_cookie(before[i].0),
    ensures
        cookies(before).contains(before[i]),
    decreases before.len(),
{
    let rest = before.drop_last();
    if i == before.len() - 1 {
        assert(cookies(before).last() == before[i]);
    } else {
        lemma_held(rest, i);
        let k = choose|k: int| 0 <= k < cookies(rest).len() && cookies(rest)[k] == rest[i];
        assert(cookies(before)[k] == before[i]);
    }
}

/// How far a stage is along.
pub open spec fn rank(stage: BehaviorStage) -> nat {
    match stage {
        BehaviorStage::Wait => 0,
        BehaviorStage::Copy => 1,
        BehaviorStage::Lookup => 2,
        BehaviorStage::Decorate => 3,
        BehaviorStage::Transform { at } => 4 + at as nat,
    }
}

/// Every behavior runs at most once, in order, and the run comes to an end.
pub proof fn law_every_step_is_progress(
    stage: BehaviorStage,
    parts: PartsModel,
    degraded: bool,
    event: EventModel,
    b: ResponseBehaviors,
    strict: bool,
)
    requires
        answers(stage, event),
        b.shell_transform@.len() <= usize::MAX,
    ensures
        (match resumed(stage, parts, degraded, event, b, strict) {
            StepModel::Run { stage: next, parts: _, degraded: _ } => rank(stage) < rank(next) < 4
                + b.shell_transform@.len() || rank(stage) < rank(next) <= 3,
            _ => true,
        }),
{
}

/// The parts that a step goes on with or comes to; none where the response fails.
pub open spec fn parts_after(step: StepModel) -> Option<PartsModel> {
    match step {
        StepModel::Run { stage: _, parts, degraded: _ } => Some(parts),
        StepModel::Applied { parts, degraded: _ } => Some(parts),
        StepModel::StrictFailure(_) => None,
    }
}

/// Whether a step goes on with, or comes to, a response that a behavior was left out of.
pub open spec fn degraded_after(step: StepModel) -> bool {
    match step {
        StepModel::Run { stage: _, parts: _, degraded } => degraded,
        StepModel::Applied { parts: _, degraded } => degraded,
        StepModel::StrictFailure(_) => false,
    }
}

/// What a substitution came to is what goes on, after copy as after lookup: exactly the
/// substituted headers and the substituted body, under the status that was there.
pub proof fn law_substitutions_are_kept(
    stage: BehaviorStage,
    parts: PartsModel,
    degraded: bool,
    headers: Seq<(Seq<char>, Seq<Seq<char>>)>,
    body: Seq<char>,
    b: ResponseBehaviors,
    strict: bool,
)
    requires
        stage is Copy || stage is Lookup,
    ensures
        ({
            let next = resumed(
                stage,
                parts,
                degraded,
                EventModel::Substituted { headers, body },
                b,
                strict,
            );
            &&& parts_after(next) is Some
            &&& parts_after(next)->0.headers == headers
            &&& parts_after(next)->0.body == body
            &&& parts_after(next)->0.status == parts.status
            &&& degraded_after(next) == degraded
        }),
{
}

/// Waiting changes nothing of a response.
pub proof fn law_waiting_changes_nothing(
    parts: PartsModel,
    degraded: bool,
    b: ResponseBehaviors,
    wait_ms: u64,
    strict: bool,
)
    ensures
        ({
            let start = on_to(wait_from(b, wait_ms), parts, false);
            let next = resumed(
                BehaviorStage::Wait,
                parts,
                degraded,
                EventModel::Waited,
                b,
                strict,
            );
            &&& parts_after(start) == Some(parts) && !degraded_after(start)
            &&& parts_after(next) == Some(parts) && degraded_after(next) == degraded
        }),
{
}

/// A command's output is the body from then on; the status and the headers stay.
pub proof fn law_transforms_replace_the_body(
    at: usize,
    parts: PartsModel,
    degraded: bool,
    output: Seq<char>,
    b: ResponseBehaviors,
    strict: bool,
)
    ensures
        ({
            let next = resumed(
                BehaviorStage::Transform { at },
                parts,
                degraded,
                EventModel::Transformed { output },
                b,
                strict,
            );
            &&& parts_after(next) is Some
            &&& parts_after(next)->0.body == output
            &&& parts_after(next)->0.status == parts.status
            &&& parts_after(next)->0.headers == parts.headers
            &&& degraded_after(next) == degraded
        }),
{
}

/// A command that fails leaves the response as it was but for the marker that says so, unless
/// behaviors are strict: then the response fails with a `500` that is marked too and holds the
/// message.
pub proof fn law_failed_transforms_are_marked(
    at: usize,
    parts: PartsModel,
    degraded: bool,
    message: Seq<char>,
    b: ResponseBehaviors,
    i: int,
)
    ensures
        ({
            let marker = "x-rift-shelltransform-error"@;
            let event = EventModel::TransformFailed { message };
            let stage = BehaviorStage::Transform { at };
            let lenient = resumed(stage, parts, degraded, event, b, false);
            let strict = resumed(stage, parts, degraded, event, b, true);
            &&& parts_after(lenient) is Some && degraded_after(lenient)
            &&& parts_after(lenient)->0.status == parts.status
            &&& parts_after(lenient)->0.body == parts.body
            &&& carries(parts_after(lenient)->0.headers, marker)
            &&& (0 <= i < parts.headers.len() && parts.headers[i].0 != marker)
                ==> i < parts_after(lenient)->0.headers.len() && parts_after(lenient)->0.headers[i]
                == parts.headers[i]
            &&& strict is StrictFailure
            &&& strict->StrictFailure_0.status == 500
            &&& strict->StrictFailure_0.headers.contains((marker, "true"@))
            &&& strict->StrictFailure_0.headers.contains(("x-rift-imposter"@, "true"@))
            &&& strict->StrictFailure_0.fault is None
            &&& strict->StrictFailure_0.body == responses::status_bytes(
                500,
                "shellTransform failed (strictBehaviors): "@ + message,
            )
        }),
{
    let marker = "x-rift-shelltransform-error"@;
    lemma_marked(parts.headers, marker, marker);
    let failed = transform_failure(message);
    assert(failed.headers[0] == ("x-rift-imposter"@, "true"@));
    assert(failed.headers[1] == (marker, "true"@));
    if 0 <= i < parts.headers.len() && parts.headers[i].0 != marker {
        lemma_marked(parts.headers, marker, parts.headers[i].0);
        assert(marked(parts.headers, marker)[i] == parts.headers[i]);
    }
}

/// A script that fails leaves the status and the body as they were, unless behaviors are strict:
/// then the response fails, with a `504` where the script took too long and a `500` where it did
/// not, marked as such, and holds the message.
pub proof fn law_failed_decorations_are_told(
    parts: PartsModel,
    degraded: bool,
    timed_out: bool,
    message: Seq<char>,
    b: ResponseBehaviors,
)
    ensures
        ({
            let event = EventModel::DecorateFailed { timed_out, message };
            let lenient = resumed(BehaviorStage::Decorate, parts, degraded, event, b, false);
            let strict = resumed(BehaviorStage::Decorate, parts, degraded, event, b, true);
            let status: u16 = if timed_out {
                504
            } else {
                500
            };
            &&& parts_after(lenient) is Some && degraded_after(lenient)
            &&& parts_after(lenient)->0.status == parts.status
            &&& parts_after(lenient)->0.body == parts.body
            &&& carries(parts_after(lenient)->0.headers, "x-rift-decorate-error"@)
            &&& timed_out ==> carries(parts_after(lenient)->0.headers, "x-rift-script-timeout"@)
            &&& strict is StrictFailure
            &&& strict->StrictFailure_0.status == status
            &&& strict->StrictFailure_0.headers.contains(("x-rift-decorate-error"@, "true"@))
            &&& strict->StrictFailure_0.headers.contains(("x-rift-imposter"@, "true"@))
            &&& timed_out ==> strict->StrictFailure_0.headers.contains(
                ("x-rift-script-timeout"@, "true"@),
            )
            &&& !timed_out ==> strict->StrictFailure_0.headers.len() == 3
            &&& strict->StrictFailure_0.fault is None
            &&& strict->StrictFailure_0.body == responses::status_bytes(
                status,
                "decorate failed (strictBehaviors): "@ + message,
            )
        }),
{
    let d = "x-rift-decorate-error"@;
    lemma_marked(parts.headers, d, d);
    let once = marked(parts.headers, d);
    lemma_marked(once, "x-rift-script-timeout"@, d);
    lemma_marked(once, "x-rift-script-timeout"@, "x-rift-script-timeout"@);
    let failed = decorate_failure(timed_out, message);
    assert(failed.headers[0] == ("x-rift-imposter"@, "true"@));
    assert(failed.headers[1] == (d, "true"@));
    if timed_out {
        assert(failed.headers[3] == ("x-rift-script-timeout"@, "true"@));
    }
}

proof fn lemma_held_are_cookies(before: Seq<(Seq<char>, Seq<Seq<char>>)>)
    ensures
        forall|k: int|
            0 <= k < cookies(before).len() ==> is_cookie((#[trigger] cookies(before)[k]).0)
                && before.contains(cookies(before)[k]),
    decreases before.len(),
{
    if before.len() > 0 {
        let rest = before.drop_last();
        lemma_held_are_cookies(rest);
        assert forall|k: int| 0 <= k < cookies(before).len() implies is_cookie(
            (#[trigger] cookies(before)[k]).0,
        ) && before.contains(cookies(before)[k]) by {
            if k < cookies(rest).len() {
                assert(cookies(before)[k] == cookies(rest)[k]);
                let j = choose|j: int| 0 <= j < rest.len() && rest[j] == cookies(rest)[k];
                assert(before[j] == cookies(rest)[k]);
            } else {
                assert(before[before.len() - 1] == cookies(before)[k]);
            }
        }
    }
}

/// After a script, the status and the body are the script's, and so are the header lines, each with
/// the one value the script gave it. Of the lines that were there before only cookies are left, and
/// none where the script set cookies of its own.
pub proof fn law_decorations_replace_the_response(
    parts: PartsModel,
    degraded: bool,
    status: u16,
    headers: Seq<(Seq<char>, Seq<char>)>,
    body: Seq<char>,
    b: ResponseBehaviors,
    strict: bool,
    i: int,
)
    ensures
        ({
            let next = resumed(
                BehaviorStage::Decorate,
                parts,
                degraded,
                EventModel::Decorated { status, headers, body },
                b,
                strict,
            );
            let after = parts_after(next)->0;
            &&& parts_after(next) is Some && degraded_after(next) == degraded
            &&& after.status == status
            &&& after.body == body
            &&& after.headers.len() >= headers.len()
            &&& 0 <= i < headers.len() ==> after.headers[i] == (headers[i].0, seq![headers[i].1])
            &&& headers.len() <= i < after.headers.len() ==> text::text_eq(
                after.headers[i].0,
                "set-cookie"@,
                false,
            ) && parts.headers.contains(after.headers[i])
            &&& lookup::has_key(headers, "set-cookie"@, false) ==> after.headers.len()
                == headers.len()
        }),
{
    lookup::lemma_find_none(headers, "set-cookie"@, false);
    lemma_held_are_cookies(parts.headers);
    let after = decorated_headers(parts.headers, headers);
    if headers.len() <= i < after.len() {
        let k = i - headers.len();
        assert(after[i] == cookies(parts.headers)[k]);
    }
}

/// A script sees every header but cookies, in order, under one value each: its values joined by a
/// comma and a space.
pub proof fn law_scripts_see_headers_folded(headers: Seq<(Seq<char>, Seq<Seq<char>>)>, i: int)
    ensures
        0 <= i < headers.len() && !is_cookie(headers[i].0) ==> single_values(headers).contains(
            (headers[i].0, record::joined(headers[i].1, ", "@)),
        ),
        forall|k: int|
            0 <= k < single_values(headers).len() ==> !is_cookie(
                (#[trigger] single_values(headers)[k]).0,
            ) && exists|j: int|
                0 <= j < headers.len() && single_values(headers)[k] == (
                    (#[trigger] headers[j]).0,
                    record::joined(headers[j].1, ", "@),
                ),
    decreases headers.len(),
{
    if headers.len() > 0 {
        let rest = headers.drop_last();
        law_scripts_see_headers_folded(rest, i);
        let all = single_values(headers);
        let some = single_values(rest);
        if 0 <= i < headers.len() && !is_cookie(headers[i].0) {
            let e = (headers[i].0, record::joined(headers[i].1, ", "@));
            if i < headers.len() - 1 {
                assert(rest[i] == headers[i]);
                let k = choose|k: int| 0 <= k < some.len() && some[k] == e;
                assert(all[k] == e);
            } else {
                assert(all[some.len() as int] == e);
            }
        }
        assert forall|k: int| 0 <= k < all.len() implies !is_cookie((#[trigger] all[k]).0)
            && exists|j: int|
            0 <= j < headers.len() && all[k] == (
                (#[trigger] headers[j]).0,
                record::joined(headers[j].1, ", "@),
            ) by {
            if k < some.len() {
                assert(all[k] == some[k]);
                let j = choose|j: int|
                    0 <= j < rest.len() && some[k] == (
                        (#[trigger] rest[j]).0,
                        record::joined(rest[j].1, ", "@),
                    );
                assert(headers[j] == rest[j]);
            } else {
                let j = headers.len() - 1;
                assert(all[k] == (headers[j].0, record::joined(headers[j].1, ", "@)));
            }
        }
    }
}

/// Whether a behavior after waiting is configured.
pub open spec fn configured(b: ResponseBehaviors, stage: BehaviorStage) -> bool {
    match stage {
        BehaviorStage::Wait => false,
        BehaviorStage::Copy => b.copy@.len() > 0,
        BehaviorStage::Lookup => b.lookup@.len() > 0,
        BehaviorStage::Decorate => b.decorate is Some,
        BehaviorStage::Transform { at } => at < b.shell_transform@.len(),
    }
}

/// After a behavior the next configured one runs, in the order copy, lookup, decorate and each
/// command; none is passed over, and where none is left the response is ready.
pub proof fn law_no_behavior_is_passed_over(
    stage: BehaviorStage,
    parts: PartsModel,
    degraded: bool,
    event: EventModel,
    b: ResponseBehaviors,
    other: BehaviorStage,
)
    requires
        answers(stage, event),
        b.shell_transform@.len() <= usize::MAX,
        stage matches BehaviorStage::Transform { at } ==> at < b.shell_transform@.len(),
        configured(b, other),
        rank(stage) < rank(other),
    ensures
        resumed(stage, parts, degraded, event, b, false) matches StepModel::Run {
            stage: next,
            parts: _,
            degraded: _,
        } && configured(b, next) && rank(stage) < rank(next) <= rank(other),
{
}

/// A response without a configured behavior is ready at once, and one whose behaviors have all run
/// is ready then.
pub proof fn law_responses_are_ready_in_the_end(
    stage: BehaviorStage,
    parts: PartsModel,
    degraded: bool,
    event: EventModel,
    b: ResponseBehaviors,
    wait_ms: u64,
)
    requires
        answers(stage, event),
        b.shell_transform@.len() <= usize::MAX,
        stage matches BehaviorStage::Transform { at } ==> at < b.shell_transform@.len(),
    ensures
        (forall|other: BehaviorStage| #[trigger]
            configured(b, other) ==> rank(other) <= rank(stage)) ==> resumed(
            stage,
            parts,
            degraded,
            event,
            b,
            false,
        ) is Applied,
        on_to(wait_from(b, wait_ms), parts, false) matches StepModel::Run {
            stage: BehaviorStage::Wait,
            parts: _,
            degraded: _,
        } <==> b.wait is Some && wait_ms > 0,
        (b.wait is None || wait_ms == 0) && b.copy@.len() == 0 && b.lookup@.len() == 0
            && b.decorate is None && b.shell_transform@.len() == 0 ==> on_to(
            wait_from(b, wait_ms),
            parts,
            false,
        ) is Applied,
        (b.wait is None || wait_ms == 0) && b.copy@.len() > 0 ==> on_to(
            wait_from(b, wait_ms),
            parts,
            false,
        )->stage is Copy,
{
    assert(configured(b, BehaviorStage::Copy) == (b.copy@.len() > 0));
    assert(configured(b, BehaviorStage::Lookup) == (b.lookup@.len() > 0));
    assert(configured(b, BehaviorStage::Decorate) == (b.decorate is Some));
    assert(configured(b, BehaviorStage::Transform { at: 0 }) == (0 < b.shell_transform@.len()));
    if let BehaviorStage::Transform { at } = stage {
        if at + 1 < b.shell_transform@.len() {
            assert(configured(b, BehaviorStage::Transform { at: (at + 1) as usize }));
        }
    }
}

/// A marker says `true`, once, under its very name; and marking changes nothing under any other
/// name.
pub proof fn law_markers_say_so(
    headers: Seq<(Seq<char>, Seq<Seq<char>>)>,
    marker: Seq<char>,
    other: Seq<char>,
)
    ensures
        lookup::find_entry(marked(headers, marker), marker, true) == Some(seq!["true"@]),
        other != marker ==> lookup::find_entry(marked(headers, marker), other, true)
            == lookup::find_entry(headers, other, true),
        lookup::find_entry(undecorated(headers, false), "x-rift-decorate-error"@, true) == Some(
            seq!["true"@],
        ),
        lookup::find_entry(undecorated(headers, true), "x-rift-script-timeout"@, true) == Some(
            seq!["true"@],
        ),
{
    let yes = seq!["true"@];
    let d = "x-rift-decorate-error"@;
    let t = "x-rift-script-timeout"@;
    json::law_a_put_value_is_found_under_its_key(headers, marker, yes, other);
    json::law_a_put_value_is_found_under_its_key(headers, d, yes, d);
    json::law_a_put_value_is_found_under_its_key(marked(headers, d), t, yes, t);
}

/// A cookie is told by its name in whatever case: its lines come through a decoration as they are,
/// unless the script set cookies of its own, and a script is not shown them.
pub proof fn law_cookies_are_told_in_any_case(
    before: Seq<(Seq<char>, Seq<Seq<char>>)>,
    script: Seq<(Seq<char>, Seq<char>)>,
    i: int,
    k: int,
)
    requires
        0 <= i < before.len(),
        text::text_eq(before[i].0, "set-cookie"@, false),
    ensures
        !lookup::has_key(script, "set-cookie"@, false) ==> decorated_headers(
            before,
            script,
        ).contains(before[i]),
        0 <= k < single_values(before).len() ==> !text::text_eq(
            single_values(before)[k].0,
            "set-cookie"@,
            false,
        ),
{
    lookup::lemma_find_none(script, "set-cookie"@, false);
    if !sets_cookies(script) {
        law_cookies_are_never_folded(before, script, i);
    }
    law_scripts_see_headers_folded(before, i);
}

/// The parts of a response are seen as they are: the status, every header with its values, and the
/// body.
pub proof fn law_parts_are_seen_as_they_are(p: ServedParts, i: int, k: int)
    ensures
        p@.status == p.status,
        p@.body == p.body@,
        p@.headers.len() == p.headers@.len(),
        0 <= i < p.headers@.len() ==> p@.headers[i].0 == p.headers@[i].0@ && p@.headers[i].1.len()
            == p.headers@[i].1@.len(),
        0 <= i < p.headers@.len() && 0 <= k < p.headers@[i].1@.len() ==> p@.headers[i].1[k]
            == p.headers@[i].1@[k]@,
{
}

} // verus!
