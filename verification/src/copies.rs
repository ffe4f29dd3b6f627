//! Copies of stubs. A copy holds the same values, text by text and number by number.

use crate::flow_store;
use crate::json::{Json, JsonModel};
use crate::lookup;
use crate::predicate;
use crate::predicate::{Predicate, PredicateOperation};
use crate::predicates;
use crate::record;
use crate::text;
use crate::types::{
    IsResponse, PathRewrite, ProxyResponse, ResponseBehaviors, RiftErrorFault, RiftFaultConfig,
    RiftLatencyFault, RiftResponseExtension, RiftScriptConfig, RiftTcpFault, Stub, StubResponse,
};
use vstd::prelude::*;

verus! {

/// Values as contracts see them.
pub open spec fn models(list: Seq<Json>) -> Seq<JsonModel> {
    list.map_values(|j: Json| j.model())
}

fn copy_values(list: &Vec<Json>) -> (r: Vec<Json>)
    ensures
        models(r@) == models(list@),
{
    let mut out: Vec<Json> = Vec::new();
    let mut i: usize = 0;
    while i < list.len()
        invariant
            i <= list@.len(),
            out@.len() == i,
            forall|k: int| 0 <= k < i ==> (#[trigger] out@[k]).model() == list@[k].model(),
        decreases list@.len() - i,
    {
        out.push(list[i].copy());
        i += 1;
    }
    proof {
        assert(models(out@) =~= models(list@));
    }
    out
}

fn copy_value(v: &Option<Json>) -> (r: Option<Json>)
    ensures
        flow_store::optional_model(r) == flow_store::optional_model(*v),
{
    match v {
        Some(j) => Some(j.copy()),
        None => None,
    }
}

/// Two operations hold the same values.
pub open spec fn operation_copied(a: PredicateOperation, b: PredicateOperation) -> bool
    decreases a,
{
    match (a, b) {
        (PredicateOperation::Equals(x), PredicateOperation::Equals(y)) => x@ == y@,
        (PredicateOperation::DeepEquals(x), PredicateOperation::DeepEquals(y)) => x@ == y@,
        (PredicateOperation::Contains(x), PredicateOperation::Contains(y)) => x@ == y@,
        (PredicateOperation::StartsWith(x), PredicateOperation::StartsWith(y)) => x@ == y@,
        (PredicateOperation::EndsWith(x), PredicateOperation::EndsWith(y)) => x@ == y@,
        (PredicateOperation::Matches(x), PredicateOperation::Matches(y)) => x@ == y@,
        (PredicateOperation::Exists(x), PredicateOperation::Exists(y)) => x@ == y@,
        (PredicateOperation::Not(x), PredicateOperation::Not(y)) => predicate_copied(*x, *y),
        (PredicateOperation::Or(x), PredicateOperation::Or(y)) => predicates_copied(x@, y@),
        (PredicateOperation::And(x), PredicateOperation::And(y)) => predicates_copied(x@, y@),
        (PredicateOperation::Inject(x), PredicateOperation::Inject(y)) => x@ == y@,
        _ => false,
    }
}

/// Two predicates hold the same values.
pub open spec fn predicate_copied(a: Predicate, b: Predicate) -> bool
    decreases a,
{
    predicate::same_parameters(a.parameters, b.parameters) && operation_copied(
        a.operation,
        b.operation,
    )
}

/// Two lists of predicates hold the same values.
pub open spec fn predicates_copied(a: Seq<Predicate>, b: Seq<Predicate>) -> bool
    decreases a,
{
    a.len() == b.len() && forall|i: int|
        0 <= i < a.len() ==> predicate_copied(#[trigger] a[i], b[i])
}

fn copy_operation(o: &PredicateOperation) -> (r: PredicateOperation)
    ensures
        operation_copied(*o, r),
    decreases o,
{
    match o {
        PredicateOperation::Equals(f) => PredicateOperation::Equals(f.copy()),
        PredicateOperation::DeepEquals(f) => PredicateOperation::DeepEquals(f.copy()),
        PredicateOperation::Contains(f) => PredicateOperation::Contains(f.copy()),
        PredicateOperation::StartsWith(f) => PredicateOperation::StartsWith(f.copy()),
        PredicateOperation::EndsWith(f) => PredicateOperation::EndsWith(f.copy()),
        PredicateOperation::Matches(f) => PredicateOperation::Matches(f.copy()),
        PredicateOperation::Exists(f) => PredicateOperation::Exists(f.copy()),
        PredicateOperation::Not(p) => PredicateOperation::Not(Box::new(copy_predicate(p))),
        PredicateOperation::Or(list) => PredicateOperation::Or(copy_predicates(list)),
        PredicateOperation::And(list) => PredicateOperation::And(copy_predicates(list)),
        PredicateOperation::Inject(s) => PredicateOperation::Inject(s.clone()),
    }
}

/// A copy of a predicate.
pub fn copy_predicate(p: &Predicate) -> (r: Predicate)
    ensures
        predicate_copied(*p, r),
    decreases p,
{
    let parameters = p.parameters.copy();
    Predicate { parameters, operation: copy_operation(&p.operation) }
}

/// A copy of a list of predicates.
pub fn copy_predicates(list: &Vec<Predicate>) -> (r: Vec<Predicate>)
    ensures
        predicates_copied(list@, r@),
    decreases list@,
{
    let mut out: Vec<Predicate> = Vec::new();
    let mut i: usize = 0;
    while i < list.len()
        invariant
            i <= list@.len(),
            out@.len() == i,
            forall|k: int| 0 <= k < i ==> predicate_copied(#[trigger] list@[k], out@[k]),
        decreases list@.len() - i,
    {
        proof {
            assert(decreases_to!(list@ => list@[i as int]));
        }
        out.push(copy_predicate(&list[i]));
        i += 1;
    }
    out
}

/// Two fixed responses hold the same values.
pub open spec fn is_copied(a: IsResponse, b: IsResponse) -> bool {
    &&& a.status_code == b.status_code
    &&& record::header_lines(a.headers@) == record::header_lines(b.headers@)
    &&& flow_store::optional_model(a.body) == flow_store::optional_model(b.body)
    &&& a.mode == b.mode
}

fn copy_is(r: &IsResponse) -> (c: IsResponse)
    ensures
        is_copied(*r, c),
{
    IsResponse {
        status_code: r.status_code,
        headers: record::copy_headers(&r.headers),
        body: copy_value(&r.body),
        mode: r.mode,
    }
}

/// Two optional sets of behaviors hold the same values.
pub open spec fn behaviors_copied(
    a: Option<ResponseBehaviors>,
    b: Option<ResponseBehaviors>,
) -> bool {
    match (a, b) {
        (Some(x), Some(y)) => {
            &&& flow_store::optional_model(x.wait) == flow_store::optional_model(y.wait)
            &&& x.repeat == y.repeat
            &&& models(x.copy@) == models(y.copy@)
            &&& models(x.lookup@) == models(y.lookup@)
            &&& text::optional_text(x.decorate) == text::optional_text(y.decorate)
            &&& record::texts(x.shell_transform@) == record::texts(y.shell_transform@)
        },
        (None, None) => true,
        _ => false,
    }
}

fn copy_behaviors(b: &Option<ResponseBehaviors>) -> (c: Option<ResponseBehaviors>)
    ensures
        behaviors_copied(*b, c),
{
    match b {
        Some(x) => Some(
            ResponseBehaviors {
                wait: copy_value(&x.wait),
                repeat: x.repeat,
                copy: copy_values(&x.copy),
                lookup: copy_values(&x.lookup),
                decorate: text::copy_optional(&x.decorate),
                shell_transform: record::copy_texts(&x.shell_transform),
            },
        ),
        None => None,
    }
}

/// Two optional delays hold the same values.
pub open spec fn latency_copied(a: Option<RiftLatencyFault>, b: Option<RiftLatencyFault>) -> bool {
    match (a, b) {
        (Some(x), Some(y)) => x == y,
        (None, None) => true,
        _ => false,
    }
}

/// Two optional error faults hold the same values.
pub open spec fn error_copied(a: Option<RiftErrorFault>, b: Option<RiftErrorFault>) -> bool {
    match (a, b) {
        (Some(x), Some(y)) => {
            &&& x.probability_bits == y.probability_bits
            &&& x.status == y.status
            &&& text::optional_text(x.body) == text::optional_text(y.body)
            &&& lookup::pairs(x.headers@) == lookup::pairs(y.headers@)
        },
        (None, None) => true,
        _ => false,
    }
}

/// Two optional transport faults hold the same values.
pub open spec fn tcp_copied(a: Option<RiftTcpFault>, b: Option<RiftTcpFault>) -> bool {
    match (a, b) {
        (Some(x), Some(y)) => x.probability_bits == y.probability_bits && x.kind@ == y.kind@,
        (None, None) => true,
        _ => false,
    }
}

/// Two optional fault configurations hold the same values.
pub open spec fn faults_copied(a: Option<RiftFaultConfig>, b: Option<RiftFaultConfig>) -> bool {
    match (a, b) {
        (Some(x), Some(y)) => latency_copied(x.latency, y.latency) && error_copied(
            x.error,
            y.error,
        ) && tcp_copied(x.tcp, y.tcp),
        (None, None) => true,
        _ => false,
    }
}

fn copy_faults(f: &Option<RiftFaultConfig>) -> (c: Option<RiftFaultConfig>)
    ensures
        faults_copied(*f, c),
{
    match f {
        Some(x) => Some(
            RiftFaultConfig {
                latency: match &x.latency {
                    Some(l) => Some(
                        RiftLatencyFault {
                            probability_bits: l.probability_bits,
                            ms: l.ms,
                            min_ms: l.min_ms,
                            max_ms: l.max_ms,
                        },
                    ),
                    None => None,
                },
                error: match &x.error {
                    Some(e) => Some(
                        RiftErrorFault {
                            probability_bits: e.probability_bits,
                            status: e.status,
                            body: text::copy_optional(&e.body),
                            headers: lookup::copy_list(&e.headers),
                        },
                    ),
                    None => None,
                },
                tcp: match &x.tcp {
                    Some(t) => Some(
                        RiftTcpFault {
                            probability_bits: t.probability_bits,
                            kind: t.kind.clone(),
                        },
                    ),
                    None => None,
                },
            },
        ),
        None => None,
    }
}

/// Two scripts hold the same values.
pub open spec fn script_copied(a: RiftScriptConfig, b: RiftScriptConfig) -> bool {
    &&& text::optional_text(a.engine) == text::optional_text(b.engine)
    &&& text::optional_text(a.code) == text::optional_text(b.code)
}

fn copy_script(s: &RiftScriptConfig) -> (c: RiftScriptConfig)
    ensures
        script_copied(*s, c),
{
    RiftScriptConfig {
        engine: text::copy_optional(&s.engine),
        code: text::copy_optional(&s.code),
    }
}

/// Two optional extensions hold the same values.
pub open spec fn extension_copied(
    a: Option<RiftResponseExtension>,
    b: Option<RiftResponseExtension>,
) -> bool {
    match (a, b) {
        (Some(x), Some(y)) => {
            &&& faults_copied(x.fault, y.fault)
            &&& match (x.script, y.script) {
                (Some(s), Some(t)) => script_copied(s, t),
                (None, None) => true,
                _ => false,
            }
            &&& x.templated == y.templated
        },
        (None, None) => true,
        _ => false,
    }
}

fn copy_extension(x: &Option<RiftResponseExtension>) -> (c: Option<RiftResponseExtension>)
    ensures
        extension_copied(*x, c),
{
    match x {
        Some(e) => Some(
            RiftResponseExtension {
                fault: copy_faults(&e.fault),
                script: match &e.script {
                    Some(s) => Some(copy_script(s)),
                    None => None,
                },
                templated: e.templated,
            },
        ),
        None => None,
    }
}

/// Two proxy responses hold the same values.
pub open spec fn proxy_copied(a: ProxyResponse, b: ProxyResponse) -> bool {
    &&& a.to@ == b.to@
    &&& a.mode@ == b.mode@
    &&& models(a.predicate_generators@) == models(b.predicate_generators@)
    &&& a.add_wait_behavior == b.add_wait_behavior
    &&& text::optional_text(a.add_decorate_behavior) == text::optional_text(b.add_decorate_behavior)
    &&& lookup::pairs(a.inject_headers@) == lookup::pairs(b.inject_headers@)
    &&& match (a.path_rewrite, b.path_rewrite) {
        (Some(x), Some(y)) => x.from@ == y.from@ && x.to@ == y.to@,
        (None, None) => true,
        _ => false,
    }
}

fn copy_proxy(p: &ProxyResponse) -> (c: ProxyResponse)
    ensures
        proxy_copied(*p, c),
{
    ProxyResponse {
        to: p.to.clone(),
        mode: p.mode.clone(),
        predicate_generators: copy_values(&p.predicate_generators),
        add_wait_behavior: p.add_wait_behavior,
        add_decorate_behavior: text::copy_optional(&p.add_decorate_behavior),
        inject_headers: lookup::copy_list(&p.inject_headers),
        path_rewrite: match &p.path_rewrite {
            Some(w) => Some(PathRewrite { from: w.from.clone(), to: w.to.clone() }),
            None => None,
        },
    }
}

/// Two responses hold the same values.
pub open spec fn response_copied(a: StubResponse, b: StubResponse) -> bool {
    match (a, b) {
        (
            StubResponse::Is { is: i, behaviors: x, rift: r },
            StubResponse::Is { is: j, behaviors: y, rift: q },
        ) => is_copied(i, j) && behaviors_copied(x, y) && extension_copied(r, q),
        (StubResponse::Proxy { proxy: p }, StubResponse::Proxy { proxy: q }) => proxy_copied(p, q),
        (
            StubResponse::Inject { inject: s, behaviors: x },
            StubResponse::Inject { inject: t, behaviors: y },
        ) => s@ == t@ && behaviors_copied(x, y),
        (StubResponse::Fault { fault: s }, StubResponse::Fault { fault: t }) => s@ == t@,
        (
            StubResponse::RiftScript { script: s },
            StubResponse::RiftScript { script: t },
        ) => script_copied(s, t),
        _ => false,
    }
}

/// A copy of a response.
pub fn copy_response(r: &StubResponse) -> (c: StubResponse)
    ensures
        response_copied(*r, c),
{
    match r {
        StubResponse::Is { is, behaviors, rift } => StubResponse::Is {
            is: copy_is(is),
            behaviors: copy_behaviors(behaviors),
            rift: copy_extension(rift),
        },
        StubResponse::Proxy { proxy } => StubResponse::Proxy { proxy: copy_proxy(proxy) },
        StubResponse::Inject { inject, behaviors } => StubResponse::Inject {
            inject: inject.clone(),
            behaviors: copy_behaviors(behaviors),
        },
        StubResponse::Fault { fault } => StubResponse::Fault { fault: fault.clone() },
        StubResponse::RiftScript { script } => StubResponse::RiftScript {
            script: copy_script(script),
        },
    }
}

/// Two stubs hold the same values.
pub open spec fn stub_copied(a: Stub, b: Stub) -> bool {
    &&& text::optional_text(a.id) == text::optional_text(b.id)
    &&& predicates_copied(a.predicates@, b.predicates@)
    &&& a.responses@.len() == b.responses@.len()
    &&& forall|i: int|
        0 <= i < a.responses@.len() ==> response_copied(
            #[trigger] a.responses@[i],
            b.responses@[i],
        )
    &&& text::optional_text(a.scenario_name) == text::optional_text(b.scenario_name)
    &&& text::optional_text(a.required_scenario_state) == text::optional_text(
        b.required_scenario_state,
    )
    &&& text::optional_text(a.new_scenario_state) == text::optional_text(b.new_scenario_state)
    &&& text::optional_text(a.space) == text::optional_text(b.space)
    &&& text::optional_text(a.route_pattern) == text::optional_text(b.route_pattern)
    &&& text::optional_text(a.recorded_from) == text::optional_text(b.recorded_from)
}

/// A copy of a stub.
pub fn copy_stub(s: &Stub) -> (c: Stub)
    ensures
        stub_copied(*s, c),
{
    let mut responses: Vec<StubResponse> = Vec::new();
    let mut i: usize = 0;
    while i < s.responses.len()
        invariant
            i <= s.responses@.len(),
            responses@.len() == i,
            forall|k: int|
                0 <= k < i ==> response_copied(#[trigger] s.responses@[k], responses@[k]),
        decreases s.responses@.len() - i,
    {
        responses.push(copy_response(&s.responses[i]));
        i += 1;
    }
    Stub {
        id: text::copy_optional(&s.id),
        predicates: copy_predicates(&s.predicates),
        responses,
        scenario_name: text::copy_optional(&s.scenario_name),
        required_scenario_state: text::copy_optional(&s.required_scenario_state),
        new_scenario_state: text::copy_optional(&s.new_scenario_state),
        space: text::copy_optional(&s.space),
        route_pattern: text::copy_optional(&s.route_pattern),
        recorded_from: text::copy_optional(&s.recorded_from),
    }
}

/// Two lists of stubs hold the same values.
pub open spec fn stubs_copied(a: Seq<Stub>, b: Seq<Stub>) -> bool {
    a.len() == b.len() && forall|i: int| 0 <= i < a.len() ==> stub_copied(#[trigger] a[i], b[i])
}

/// A copy of a list of stubs.
pub fn copy_stubs(list: &Vec<Stub>) -> (r: Vec<Stub>)
    ensures
        stubs_copied(list@, r@),
{
    let mut out: Vec<Stub> = Vec::new();
    let mut i: usize = 0;
    while i < list.len()
        invariant
            i <= list@.len(),
            out@.len() == i,
            forall|k: int| 0 <= k < i ==> stub_copied(#[trigger] list@[k], out@[k]),
        decreases list@.len() - i,
    {
        out.push(copy_stub(&list[i]));
        i += 1;
    }
    out
}

proof fn lemma_copied_length(a: Seq<Json>, b: Seq<Json>)
    requires
        models(a) == models(b),
    ensures
        a.len() == b.len(),
{
    assert(models(a).len() == a.len());
    assert(models(b).len() == b.len());
}

/// A copied predicate comes to the same on every request.
pub proof fn law_copied_predicates_decide_alike(
    a: Predicate,
    b: Predicate,
    r: predicates::RequestModel,
    findings: Seq<predicate::Finding>,
)
    requires
        predicate_copied(a, b),
    ensures
        predicates::verdict(a, r, findings) == predicates::verdict(b, r, findings),
    decreases a, 0int,
{
    assert(operation_copied(a.operation, b.operation));
    assert(predicates::effective_body(a.parameters, r, findings) == predicates::effective_body(
        b.parameters,
        r,
        findings,
    ));
    match (a.operation, b.operation) {
        (PredicateOperation::Not(x), PredicateOperation::Not(y)) => {
            assert(predicate_copied(*x, *y));
            law_copied_predicates_decide_alike(*x, *y, r, findings);
        },
        (PredicateOperation::Or(x), PredicateOperation::Or(y)) => {
            assert(predicates_copied(x@, y@));
            law_copied_lists_decide_alike(x@, y@, r, findings);
        },
        (PredicateOperation::And(x), PredicateOperation::And(y)) => {
            assert(predicates_copied(x@, y@));
            law_copied_lists_decide_alike(x@, y@, r, findings);
        },
        _ => {},
    }
}

/// Copied predicates all hold, or any of them does, on the same requests.
pub proof fn law_copied_lists_decide_alike(
    a: Seq<Predicate>,
    b: Seq<Predicate>,
    r: predicates::RequestModel,
    findings: Seq<predicate::Finding>,
)
    requires
        predicates_copied(a, b),
    ensures
        predicates::all_verdict(a, r, findings) == predicates::all_verdict(b, r, findings),
        predicates::any_verdict(a, r, findings) == predicates::any_verdict(b, r, findings),
    decreases a, 1int,
{
    assert(a.len() == b.len());
    if a.len() > 0 {
        assert(predicate_copied(a[0], b[0]));
        law_copied_predicates_decide_alike(a[0], b[0], r, findings);
        assert forall|i: int| 0 <= i < a.drop_first().len() implies predicate_copied(
            #[trigger] a.drop_first()[i],
            b.drop_first()[i],
        ) by {
            assert(predicate_copied(a[i + 1], b[i + 1]));
        }
        assert(predicates_copied(a.drop_first(), b.drop_first()));
        law_copied_lists_decide_alike(a.drop_first(), b.drop_first(), r, findings);
    }
}

/// A copied proxy takes the same steps, asks for the same path and is found by the same address and
/// mode.
pub proof fn law_copied_proxies_step_alike(
    a: ProxyResponse,
    b: ProxyResponse,
    p: crate::proxy_run::PhaseModel,
    e: crate::proxy_run::EventModel,
    path: Seq<char>,
)
    requires
        proxy_copied(a, b),
    ensures
        crate::proxy_run::stepped(p, e, a) == crate::proxy_run::stepped(p, e, b),
        crate::proxy::upstream_path(path, a.path_rewrite) == crate::proxy::upstream_path(
            path,
            b.path_rewrite,
        ),
        a.to@ == b.to@,
        a.mode@ == b.mode@,
        a.predicate_generators@.len() == b.predicate_generators@.len(),
        lookup::pairs(a.inject_headers@) == lookup::pairs(b.inject_headers@),
{
    lemma_copied_length(a.predicate_generators@, b.predicate_generators@);
}

/// Copied faults strike alike and delay alike.
pub proof fn law_copied_faults_strike_alike(
    a: RiftFaultConfig,
    b: RiftFaultConfig,
    tcp: bool,
    error: bool,
    drawn: Option<u64>,
)
    requires
        faults_copied(Some(a), Some(b)),
    ensures
        crate::serving::struck(a, tcp, error) == crate::serving::struck(b, tcp, error),
        crate::serving::delay_of(a, drawn) == crate::serving::delay_of(b, drawn),
{
}

/// A copied response is served as often, begins in the same way, and goes through the same
/// behaviors, templates and faults as the response it was copied from.
pub proof fn law_copied_responses_are_served_alike(a: StubResponse, b: StubResponse)
    requires
        response_copied(a, b),
    ensures
        crate::stub::turns(a) == crate::stub::turns(b),
        crate::serving::answer_begins(a) == crate::serving::answer_begins(b),
        crate::serving::engine_of(a) == crate::serving::engine_of(b),
        crate::serving::behaves(a) == crate::serving::behaves(b),
        crate::serving::is_templated(a) == crate::serving::is_templated(b),
        crate::serving::mode_of(a) == crate::serving::mode_of(b),
        crate::imposter::may_fault(a) == crate::imposter::may_fault(b),
        crate::imposter::runs_script(a) == crate::imposter::runs_script(b),
{
    match (a, b) {
        (
            StubResponse::Is { is: i, behaviors: x, rift: p },
            StubResponse::Is { is: j, behaviors: y, rift: q },
        ) => {
            assert(is_copied(i, j));
            assert(crate::delivery::body_model(i.body) == crate::delivery::body_model(j.body));
        },
        _ => {},
    }
}

/// Copied behaviors run the same stages, in the same order, over the same values.
pub proof fn law_copied_behaviors_run_alike(
    a: ResponseBehaviors,
    b: ResponseBehaviors,
    wait_ms: u64,
    i: int,
)
    requires
        behaviors_copied(Some(a), Some(b)),
    ensures
        crate::pipeline::wait_from(a, wait_ms) == crate::pipeline::wait_from(b, wait_ms),
        a.wait is Some <==> b.wait is Some,
        a.decorate is Some <==> b.decorate is Some,
        a.decorate matches Some(s) ==> s@ == b.decorate->0@,
        a.shell_transform@.len() == b.shell_transform@.len(),
        0 <= i < a.shell_transform@.len() ==> a.shell_transform@[i]@ == b.shell_transform@[i]@,
        a.copy@.len() == b.copy@.len(),
        0 <= i < a.copy@.len() ==> a.copy@[i].model() == b.copy@[i].model(),
        a.lookup@.len() == b.lookup@.len(),
        0 <= i < a.lookup@.len() ==> a.lookup@[i].model() == b.lookup@[i].model(),
{
    lemma_copied_length(a.copy@, b.copy@);
    lemma_copied_length(a.lookup@, b.lookup@);
    let s = record::texts(a.shell_transform@);
    let t = record::texts(b.shell_transform@);
    assert(s.len() == a.shell_transform@.len() && t.len() == b.shell_transform@.len());
    if 0 <= i < a.shell_transform@.len() {
        assert(s[i] == t[i]);
    }
    if 0 <= i < a.copy@.len() {
        assert(models(a.copy@)[i] == models(b.copy@)[i]);
    }
    if 0 <= i < a.lookup@.len() {
        assert(models(a.lookup@)[i] == models(b.lookup@)[i]);
    }
}

/// A copied stub takes part in the same flows and states, matches the same requests, moves its
/// scenario in the same way and is known by the same id, scenario and space.
pub proof fn law_copied_stubs_match_alike(
    a: Stub,
    b: Stub,
    r: predicates::RequestModel,
    findings: Seq<predicate::Finding>,
    flow_id: Seq<char>,
    c: flow_store::Contents,
    current: Option<JsonModel>,
    i: int,
)
    requires
        stub_copied(a, b),
    ensures
        crate::matching::takes_part(a, flow_id, c) == crate::matching::takes_part(b, flow_id, c),
        crate::matching::tried(a, r, findings, flow_id, c) == crate::matching::tried(
            b,
            r,
            findings,
            flow_id,
            c,
        ),
        crate::imposter::state_after(current, a) == crate::imposter::state_after(current, b),
        crate::imposter::in_space(a, flow_id) == crate::imposter::in_space(b, flow_id),
        crate::matching::scenario_of(a) == crate::matching::scenario_of(b),
        text::optional_text(a.id) == text::optional_text(b.id),
        text::optional_text(a.route_pattern) == text::optional_text(b.route_pattern),
        text::optional_text(a.recorded_from) == text::optional_text(b.recorded_from),
        a.responses@.len() == b.responses@.len(),
        0 <= i < a.responses@.len() ==> response_copied(a.responses@[i], b.responses@[i]),
{
    law_copied_lists_decide_alike(a.predicates@, b.predicates@, r, findings);
}

/// Copied stubs stand in the same order, each in its place.
pub proof fn law_copied_stubs_keep_their_order(a: Seq<Stub>, b: Seq<Stub>, i: int)
    requires
        stubs_copied(a, b),
    ensures
        a.len() == b.len(),
        0 <= i < a.len() ==> stub_copied(a[i], b[i]),
{
}

} // verus!
