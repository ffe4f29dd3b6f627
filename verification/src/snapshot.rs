//! The stubs of an imposter with the index over them, kept together.

use crate::bitset::CandidateBits;
use crate::compare;
use crate::compare::Relation;
use crate::fields;
use crate::json;
use crate::json::{Json, JsonModel};
use crate::lookup;
use crate::predicate::{Finding, MatchErrorModel, Predicate, PredicateOperation};
use crate::predicates;
use crate::predicates::RequestModel;
use crate::structural_hash;
use crate::stub::StubState;
use crate::stub_index;
use crate::stub_index::{DimensionRequest, RequestKey, StubIndex};
use crate::text;
use vstd::prelude::*;

verus! {

/// Whether a predicate tree holds an `inject` predicate anywhere.
pub open spec fn injects(p: Predicate) -> bool
    decreases p,
{
    match p.operation {
        PredicateOperation::Inject(_) => true,
        PredicateOperation::Not(inner) => injects(*inner),
        PredicateOperation::And(children) => exists|i: int|
            0 <= i < children@.len() && injects(#[trigger] children@[i]),
        PredicateOperation::Or(children) => exists|i: int|
            0 <= i < children@.len() && injects(#[trigger] children@[i]),
        _ => false,
    }
}

/// Whether a predicate tree holds an `inject` predicate anywhere.
pub fn predicate_contains_inject(p: &Predicate) -> (r: bool)
    ensures
        r == injects(*p),
    decreases p,
{
    match &p.operation {
        PredicateOperation::Inject(_) => true,
        PredicateOperation::Not(inner) => predicate_contains_inject(inner),
        PredicateOperation::And(children) => {
            let mut i: usize = 0;
            while i < children.len()
                invariant
                    i <= children@.len(),
                    p.operation == PredicateOperation::And(*children),
                    forall|k: int| 0 <= k < i ==> !injects(#[trigger] children@[k]),
                decreases children@.len() - i,
            {
                proof {
                    assert(p.operation->And_0@[i as int] == children@[i as int]);
                }
                if predicate_contains_inject(&children[i]) {
                    return true;
                }
                i += 1;
            }
            false
        },
        PredicateOperation::Or(children) => {
            let mut i: usize = 0;
            while i < children.len()
                invariant
                    i <= children@.len(),
                    p.operation == PredicateOperation::Or(*children),
                    forall|k: int| 0 <= k < i ==> !injects(#[trigger] children@[k]),
                decreases children@.len() - i,
            {
                proof {
                    assert(p.operation->Or_0@[i as int] == children@[i as int]);
                }
                if predicate_contains_inject(&children[i]) {
                    return true;
                }
                i += 1;
            }
            false
        },
        _ => false,
    }
}

/// Whether some predicate of a stub holds an `inject` predicate.
pub open spec fn stub_injects(s: StubState) -> bool {
    exists|k: int|
        0 <= k < s.stub.predicates@.len() && injects(#[trigger] s.stub.predicates@[k])
}

/// Whether a stub takes part only in some scenario state.
pub open spec fn stub_gated(s: StubState) -> bool {
    s.stub.required_scenario_state is Some
}

/// Whether some stub has an `inject` predicate.
pub open spec fn any_injects(stubs: Seq<StubState>) -> bool {
    exists|i: int| 0 <= i < stubs.len() && stub_injects(#[trigger] stubs[i])
}

/// Whether some stub takes part only in some scenario state.
pub open spec fn any_gated(stubs: Seq<StubState>) -> bool {
    exists|i: int| 0 <= i < stubs.len() && stub_gated(#[trigger] stubs[i])
}

/// Stubs, the index over exactly these stubs, and what matching them takes.
pub struct StubSnapshot {
    stubs: Vec<StubState>,
    index: StubIndex,
    has_inject: bool,
    has_scenario_gate: bool,
}

impl StubSnapshot {
    /// The stubs in declaration order.
    pub closed spec fn states(&self) -> Seq<StubState> {
        self.stubs@
    }

    /// The index over the stubs.
    pub closed spec fn lookup(&self) -> StubIndex {
        self.index
    }

    /// The index is that of the stubs, and so are the gates.
    pub closed spec fn wf(&self) -> bool {
        &&& self.index.wf()
        &&& self.index.covers(self.stubs@)
        &&& self.has_inject == any_injects(self.stubs@)
        &&& self.has_scenario_gate == any_gated(self.stubs@)
    }

    /// The index covers the stubs, as the laws on it ask.
    pub proof fn law_the_index_covers_the_stubs(&self)
        requires
            self.wf(),
        ensures
            self.lookup().wf(),
            self.lookup().covers(self.states()),
    {
    }

    /// Indexes the stubs.
    pub fn build(stubs: Vec<StubState>) -> (r: Self)
        ensures
            r.wf(),
            r.states() == stubs@,
            r.lookup().literal_skipped() == stub_index::literal_fallback(stubs@),
            r.lookup().regex_skipped() == stub_index::pattern_fallback(stubs@),
            stub_index::entry_models(r.lookup().notices()) == stub_index::notices_of(stubs@),
    {
        let index = StubIndex::build(&stubs);
        let mut has_inject: bool = false;
        let mut has_scenario_gate: bool = false;
        let mut i: usize = 0;
        while i < stubs.len()
            invariant
                i <= stubs@.len(),
                has_inject == (exists|k: int|
                    0 <= k < i && stub_injects(#[trigger] stubs@[k])),
                has_scenario_gate == (exists|k: int|
                    0 <= k < i && stub_gated(#[trigger] stubs@[k])),
            decreases stubs@.len() - i,
        {
            let ps = &stubs[i].stub.predicates;
            let mut j: usize = 0;
            let mut found: bool = false;
            while j < ps.len()
                invariant
                    j <= ps@.len(),
                    found == (exists|k: int| 0 <= k < j && injects(#[trigger] ps@[k])),
                decreases ps@.len() - j,
            {
                if predicate_contains_inject(&ps[j]) {
                    found = true;
                }
                j += 1;
            }
            proof {
                assert(found == stub_injects(stubs@[i as int]));
            }
            if found {
                has_inject = true;
            }
            if stubs[i].stub.required_scenario_state.is_some() {
                has_scenario_gate = true;
                proof {
                    assert(stub_gated(stubs@[i as int]));
                }
            }
            i += 1;
        }
        StubSnapshot { stubs, index, has_inject, has_scenario_gate }
    }

    /// The stubs in declaration order.
    pub fn stubs(&self) -> (r: &Vec<StubState>)
        ensures
            r@ == self.states(),
    {
        &self.stubs
    }

    /// The stubs, giving up the index.
    pub fn into_stubs(self) -> (r: Vec<StubState>)
        ensures
            r@ == self.states(),
    {
        self.stubs
    }

    /// Whether any stub has an `inject` predicate, at whatever depth.
    pub fn has_inject(&self) -> (r: bool)
        requires
            self.wf(),
        ensures
            r == any_injects(self.states()),
    {
        self.has_inject
    }

    /// Whether any stub takes part only in some scenario state.
    pub fn has_scenario_gate(&self) -> (r: bool)
        requires
            self.wf(),
        ensures
            r == any_gated(self.states()),
    {
        self.has_scenario_gate
    }

    /// The candidates for a request whose body is absent or not JSON.
    pub fn candidates(&self, method: &str, path: &str) -> (r: CandidateBits)
        requires
            self.wf(),
        ensures
            r.wf(),
            r.space() == self.states().len(),
            r@ == self.lookup().chosen(
                self.states(),
                (RequestKey { method: method@, path: path@, body: None }),
            ),
            forall|i: int, m: RequestModel, findings: Seq<Finding>|
                0 <= i < self.states().len() && m.method == method@ && m.path == path@
                    && body_value(m.body) is None && #[trigger] predicates::all_verdict(
                    stub_index::predicates_of(self.states(), i),
                    m,
                    findings,
                ) == Ok::<bool, MatchErrorModel>(true) ==> r@.contains(i),
    {
        self.candidates_with_body(method, path, None)
    }

    /// The candidates for a request, with its body as JSON where it is JSON.
    pub fn candidates_with_body(&self, method: &str, path: &str, body_json: Option<&Json>) -> (r:
        CandidateBits)
        requires
            self.wf(),
        ensures
            r.wf(),
            r.space() == self.states().len(),
            r@ == self.lookup().chosen(
                self.states(),
                (RequestKey {
                    method: method@,
                    path: path@,
                    body: match body_json {
                        Some(j) => Some(j.model()),
                        None => None,
                    },
                }),
            ),
            forall|i: int, m: RequestModel, findings: Seq<Finding>|
                0 <= i < self.states().len() && m.method == method@ && m.path == path@
                    && body_value(m.body) == compare::read_model(body_json) && body_well_read(m)
                    && #[trigger] predicates::all_verdict(
                    stub_index::predicates_of(self.states(), i),
                    m,
                    findings,
                ) == Ok::<bool, MatchErrorModel>(true) ==> r@.contains(i),
    {
        proof {
            assert forall|i: int, m: RequestModel, findings: Seq<Finding>|
                0 <= i < self.states().len() && m.method == method@ && m.path == path@
                    && body_value(m.body) == compare::read_model(body_json) && body_well_read(m)
                    && #[trigger] predicates::all_verdict(
                    stub_index::predicates_of(self.states(), i),
                    m,
                    findings,
                ) == Ok::<bool, MatchErrorModel>(true) implies self.lookup().chosen(
                self.states(),
                key_of(m),
            ).contains(i) by {
                law_candidates_cover_matches(self.lookup(), self.states(), i, m, findings);
            }
        }
        let n: usize = self.index.len();
        self.index.candidates(&DimensionRequest { method, path, body: body_json })
    }

    /// The index over the stubs.
    pub fn index(&self) -> (r: &StubIndex)
        ensures
            *r == self.lookup(),
    {
        &self.index
    }

    /// The position of the response that stub `at` serves next, moving on in its cycle.
    pub fn advance(&mut self, at: usize) -> (r: Option<usize>)
        requires
            old(self).wf(),
            at < old(self).states().len(),
        ensures
            final(self).wf(),
            final(self).states().len() == old(self).states().len(),
            forall|i: int|
                0 <= i < old(self).states().len() && i != at ==> #[trigger] final(self).states()[i]
                    == old(self).states()[i],
            served(old(self).states()[at as int], final(self).states()[at as int], r),
    {
        let ghost before = self.stubs@;
        let r: Option<usize> = self.stubs[at].next_position();
        proof {
            assert forall|i: int| 0 <= i < before.len() implies #[trigger]
                stub_index::predicates_of(self.stubs@, i) == stub_index::predicates_of(
                before,
                i,
            ) by {
                assert(self.stubs@[i].stub == before[i].stub);
            }
            self.index.lemma_covers_by_predicates(before, self.stubs@);
            assert forall|i: int| 0 <= i < before.len() implies stub_injects(
                #[trigger] self.stubs@[i],
            ) == stub_injects(before[i]) && stub_gated(self.stubs@[i]) == stub_gated(before[i]) by {
                assert(self.stubs@[i].stub == before[i].stub);
            }
            if self.has_inject {
                let w = choose|i: int| 0 <= i < before.len() && stub_injects(#[trigger] before[i]);
                assert(stub_injects(self.stubs@[w]));
            }
            if self.has_scenario_gate {
                let w = choose|i: int| 0 <= i < before.len() && stub_gated(#[trigger] before[i]);
                assert(stub_gated(self.stubs@[w]));
            }
        }
        r
    }
}

/// One stub served one response: its place moved on, and nothing else of it changed.
pub open spec fn served(before: StubState, after: StubState, position: Option<usize>) -> bool {
    let responses = before.stub.responses@;
    &&& after.stub == before.stub
    &&& after.slot == before.slot
    &&& responses.len() == 0 ==> position is None && after.cycler == before.cycler
    &&& responses.len() > 0 ==> {
        &&& position is Some
        &&& position->0 as int == crate::stub::current(before.cycler, responses)
        &&& position->0 < responses.len()
        &&& (after.cycler.index as int, after.cycler.served as int) == crate::stub::advanced(
            before.cycler,
            responses,
        )
    }
}

/// The predicate that an anchor was taken from.
proof fn lemma_anchored<T>(ps: Seq<Predicate>, f: spec_fn(Predicate) -> Option<T>) -> (i: int)
    requires
        stub_index::first_some(ps, f) is Some,
    ensures
        0 <= i < ps.len(),
        f(ps[i]) == stub_index::first_some(ps, f),
    decreases ps.len(),
{
    if f(ps[0]) is Some {
        0
    } else {
        1 + lemma_anchored(ps.drop_first(), f)
    }
}

/// The body read as JSON, where there is one and it is JSON.
pub open spec fn body_value(body: Option<Seq<char>>) -> Option<JsonModel> {
    match body {
        Some(b) => json::json_read(b),
        None => None,
    }
}

/// The index's view of a request.
pub open spec fn key_of(r: RequestModel) -> RequestKey {
    RequestKey { method: r.method, path: r.path, body: body_value(r.body) }
}

/// The body, where it is JSON, is a value as `serde_json` reads it. [`Json::parse`] gives this of
/// every body that it reads.
pub open spec fn body_well_read(r: RequestModel) -> bool {
    body_value(r.body) is Some ==> json::well_read(body_value(r.body)->0)
}

proof fn lemma_path_admits(ps: Seq<Predicate>, r: RequestModel, findings: Seq<Finding>)
    requires
        predicates::all_verdict(ps, r, findings) == Ok::<bool, MatchErrorModel>(true),
    ensures
        stub_index::path_admits(ps, key_of(r)),
{
    if stub_index::path_of(ps) is Some {
        let i = lemma_anchored(ps, |p: Predicate| stub_index::path_anchor_of(p));
        predicates::law_a_match_needs_every_predicate(ps, r, findings, i);
        let t = stub_index::path_of(ps)->0;
        assert(text::text_eq(t, r.path, false));
    }
}

proof fn lemma_method_admits(ps: Seq<Predicate>, r: RequestModel, findings: Seq<Finding>)
    requires
        predicates::all_verdict(ps, r, findings) == Ok::<bool, MatchErrorModel>(true),
    ensures
        stub_index::method_admits(ps, key_of(r)),
{
    if stub_index::method_of(ps) is Some {
        let i = lemma_anchored(ps, |p: Predicate| stub_index::method_anchor_of(p));
        predicates::law_a_match_needs_every_predicate(ps, r, findings, i);
        let m = stub_index::method_of(ps)->0;
        assert(text::text_eq(m, r.method, false));
    }
}

proof fn lemma_literal_admits(ps: Seq<Predicate>, r: RequestModel, findings: Seq<Finding>)
    requires
        predicates::all_verdict(ps, r, findings) == Ok::<bool, MatchErrorModel>(true),
    ensures
        stub_index::literal_admits(ps, key_of(r)),
{
    if stub_index::literal_of(ps) is Some {
        let i = lemma_anchored(ps, |p: Predicate| stub_index::literal_anchor_of(p));
        predicates::law_a_match_needs_every_predicate(ps, r, findings, i);
        let l = stub_index::literal_of(ps)->0;
        assert(stub_index::literal_anchor_of(ps[i]) == Some(l));
        assert(stub_index::literal_holds(l, r.path));
    }
}

proof fn lemma_regex_admits(ps: Seq<Predicate>, r: RequestModel, findings: Seq<Finding>)
    requires
        predicates::all_verdict(ps, r, findings) == Ok::<bool, MatchErrorModel>(true),
    ensures
        stub_index::regex_admits(ps, key_of(r)),
{
    if stub_index::regex_of(ps) is Some {
        let i = lemma_anchored(ps, |p: Predicate| stub_index::regex_anchor_of(p));
        predicates::law_a_match_needs_every_predicate(ps, r, findings, i);
        let (pattern, case_sensitive) = stub_index::regex_of(ps)->0;
        assert(stub_index::regex_anchor_of(ps[i]) == Some((pattern, case_sensitive)));
    }
}

proof fn lemma_body_admits(ps: Seq<Predicate>, r: RequestModel, findings: Seq<Finding>)
    requires
        predicates::all_verdict(ps, r, findings) == Ok::<bool, MatchErrorModel>(true),
        body_well_read(r),
    ensures
        stub_index::body_admits(ps, key_of(r)),
{
    if stub_index::body_of(ps) is Some {
        let i = lemma_anchored(ps, |p: Predicate| stub_index::body_anchor_of(p));
        predicates::law_a_match_needs_every_predicate(ps, r, findings, i);
        let p = ps[i];
        assert(stub_index::body_anchor_of(p) == stub_index::body_of(ps));
        let f = p.operation->DeepEquals_0;
        let want = lookup::find_entry(f@, "body"@, true)->0;
        let rule = predicates::rule_of(p.parameters, Relation::Equals, true);
        let body = fields::text_or_empty(r.body);
        assert(rule == structural_hash::deep_equals_rule());
        assert(fields::body_holds(rule, f@, body));
        assert(compare::json_holds(rule, want, body));
        assert(json::json_read(body) is Some);
        let actual = json::json_read(body)->0;
        structural_hash::law_deep_equal_bodies_hash_alike(want, body, actual);
    }
}

/// A stub that requires no method, path, path literal, path pattern or JSON body of its own is a
/// candidate for every request.
pub proof fn law_unanchored_stubs_are_always_candidates(
    index: StubIndex,
    stubs: Seq<StubState>,
    i: int,
    q: RequestKey,
)
    requires
        index.covers(stubs),
        0 <= i < stubs.len(),
        ({
            let ps = stub_index::predicates_of(stubs, i);
            &&& stub_index::method_of(ps) is None
            &&& stub_index::path_of(ps) is None
            &&& stub_index::literal_of(ps) is None
            &&& stub_index::regex_of(ps) is None
            &&& stub_index::body_of(ps) is None
        }),
    ensures
        index.chosen(stubs, q).contains(i),
{
}

/// The candidates are a superset of the matches: a stub whose predicates all hold of a request is
/// among the request's candidates.
pub proof fn law_candidates_cover_matches(
    index: StubIndex,
    stubs: Seq<StubState>,
    i: int,
    r: RequestModel,
    findings: Seq<Finding>,
)
    requires
        index.covers(stubs),
        0 <= i < stubs.len(),
        predicates::all_verdict(stub_index::predicates_of(stubs, i), r, findings) == Ok::<
            bool,
            MatchErrorModel,
        >(true),
        body_well_read(r),
    ensures
        index.chosen(stubs, key_of(r)).contains(i),
{
    let ps = stub_index::predicates_of(stubs, i);
    lemma_path_admits(ps, r, findings);
    lemma_method_admits(ps, r, findings);
    lemma_literal_admits(ps, r, findings);
    lemma_regex_admits(ps, r, findings);
    lemma_body_admits(ps, r, findings);
}

/// Whether a predicate asks for the texts of a request as they are, whatever their case.
pub open spec fn plainly_asked(p: Predicate) -> bool {
    p.parameters.except@.len() == 0 && p.parameters.selector is None && p.parameters.case_sensitive
        != Some(true)
}

/// A stub that asks for another method is no candidate: where its one predicate asks for a method
/// by equality, only requests of that method, in whatever case, are left to it; a method of no
/// common name is left to every request of no common method.
pub proof fn law_another_method_is_no_candidate(
    index: StubIndex,
    stubs: Seq<StubState>,
    i: int,
    p: Predicate,
    method: Seq<char>,
    q: RequestKey,
)
    requires
        index.covers(stubs),
        0 <= i < stubs.len(),
        stubs[i].stub.predicates@ == seq![p],
        plainly_asked(p),
        p.operation is Equals,
        lookup::find_entry(p.operation->Equals_0@, "method"@, true) == Some(JsonModel::Text(method)),
        stub_index::slot_of(method) != stub_index::slot_of(q.method),
    ensures
        !index.chosen(stubs, q).contains(i),
{
    lemma_one_anchor(p, |x: Predicate| stub_index::method_anchor_of(x));
}

proof fn lemma_one_anchor<T>(p: Predicate, f: spec_fn(Predicate) -> Option<T>)
    ensures
        stub_index::first_some(seq![p], f) == f(p),
{
    let one = seq![p];
    assert(one[0] == p);
    assert(one.drop_first() =~= Seq::<Predicate>::empty());
    assert(stub_index::first_some(one.drop_first(), f) is None);
}

/// The seven common methods have a place of their own each, whatever their case, and all others
/// share one.
pub proof fn law_methods_have_their_places(a: Seq<char>, b: Seq<char>)
    ensures
        text::text_eq(a, b, false) ==> stub_index::slot_of(a) == stub_index::slot_of(b),
        stub_index::slot_of("GET"@) == 0,
        stub_index::slot_of(a) == stub_index::slot_of(b) && stub_index::slot_of(a) < 7
            ==> text::text_eq(a, b, false),
        0 <= stub_index::slot_of(a) <= 7,
        stub_index::slot_of(a) == 7 <==> !text::text_eq(a, "GET"@, false) && !text::text_eq(
            a,
            "POST"@,
            false,
        ) && !text::text_eq(a, "PUT"@, false) && !text::text_eq(a, "DELETE"@, false)
            && !text::text_eq(a, "PATCH"@, false) && !text::text_eq(a, "HEAD"@, false)
            && !text::text_eq(a, "OPTIONS"@, false),
{
}

/// A stub that asks for another path is no candidate: where its one predicate asks for a path by
/// equality, only requests for that path, in whatever case, are left to it.
pub proof fn law_another_path_is_no_candidate(
    index: StubIndex,
    stubs: Seq<StubState>,
    i: int,
    p: Predicate,
    path: Seq<char>,
    q: RequestKey,
)
    requires
        index.covers(stubs),
        0 <= i < stubs.len(),
        stubs[i].stub.predicates@ == seq![p],
        plainly_asked(p),
        p.operation is Equals,
        lookup::find_entry(p.operation->Equals_0@, "path"@, true) == Some(JsonModel::Text(path)),
        structural_hash::lowered(path) != structural_hash::lowered(q.path),
    ensures
        !index.chosen(stubs, q).contains(i),
{
    lemma_one_anchor(p, |x: Predicate| stub_index::path_anchor_of(x));
}

/// A stub whose one predicate asks for a part, a beginning or an end of the path is a candidate for
/// no path without it, unless its literals could not be indexed.
pub proof fn law_a_path_without_the_literal_is_no_candidate(
    index: StubIndex,
    stubs: Seq<StubState>,
    i: int,
    p: Predicate,
    part: Seq<char>,
    q: RequestKey,
)
    requires
        index.covers(stubs),
        0 <= i < stubs.len(),
        stubs[i].stub.predicates@ == seq![p],
        p.parameters.except@.len() == 0,
        p.parameters.selector is None,
        part.len() > 0,
        ({
            let case = p.parameters.case_sensitive == Some(true);
            match p.operation {
                PredicateOperation::Contains(f) => lookup::find_entry(f@, "path"@, true) == Some(
                    JsonModel::Text(part),
                ) && !text::text_contains(q.path, part, case),
                PredicateOperation::StartsWith(f) => lookup::find_entry(f@, "path"@, true) == Some(
                    JsonModel::Text(part),
                ) && !text::text_starts_with(q.path, part, case),
                PredicateOperation::EndsWith(f) => lookup::find_entry(f@, "path"@, true) == Some(
                    JsonModel::Text(part),
                ) && !text::text_ends_with(q.path, part, case),
                _ => false,
            }
        }),
        stub_index::literals_indexed(stubs, p.parameters.case_sensitive == Some(true)),
    ensures
        !index.chosen(stubs, q).contains(i),
{
    lemma_one_anchor(p, |x: Predicate| stub_index::literal_anchor_of(x));
    index.law_what_falls_back(stubs);
    assert(!stub_index::literal_fallback(stubs).contains(i));
}

/// A stub whose one predicate asks for a pattern in the path is a candidate for no path without it,
/// unless its pattern could not be indexed.
pub proof fn law_a_path_without_the_pattern_is_no_candidate(
    index: StubIndex,
    stubs: Seq<StubState>,
    i: int,
    p: Predicate,
    pattern: Seq<char>,
    q: RequestKey,
)
    requires
        index.covers(stubs),
        0 <= i < stubs.len(),
        stubs[i].stub.predicates@ == seq![p],
        p.parameters.except@.len() == 0,
        p.parameters.selector is None,
        p.operation is Matches,
        lookup::find_entry(p.operation->Matches_0@, "path"@, true) == Some(
            JsonModel::Text(pattern),
        ),
        !crate::regex_cache::regex_found(
            pattern,
            p.parameters.case_sensitive != Some(true),
            q.path,
        ),
        !index.regex_skipped().contains(i),
    ensures
        !index.chosen(stubs, q).contains(i),
{
    lemma_one_anchor(p, |x: Predicate| stub_index::regex_anchor_of(x));
}

/// A stub whose one predicate asks for a JSON body as a whole is a candidate for no request without
/// one, nor for one whose body has another structural hash.
pub proof fn law_another_body_is_no_candidate(
    index: StubIndex,
    stubs: Seq<StubState>,
    i: int,
    p: Predicate,
    body: JsonModel,
    hash: u64,
    q: RequestKey,
)
    requires
        index.covers(stubs),
        0 <= i < stubs.len(),
        stubs[i].stub.predicates@ == seq![p],
        plainly_asked(p),
        p.parameters.key_case_sensitive != Some(true),
        p.operation is DeepEquals,
        lookup::find_entry(p.operation->DeepEquals_0@, "body"@, true) == Some(body),
        body is Object || body is Array,
        structural_hash::hash_of(body) == Some(hash),
    ensures
        q.body is None ==> !index.chosen(stubs, q).contains(i),
        q.body matches Some(b) ==> (structural_hash::hash_of(b) matches Some(other) ==> (
        other != hash ==> !index.chosen(stubs, q).contains(i))),
{
    lemma_one_anchor(p, |x: Predicate| stub_index::body_anchor_of(x));
}

/// Whether a script has to be asked is noticed wherever it stands: by itself, negated, or among the
/// predicates of an `and` or an `or`, however deep.
pub proof fn law_scripts_are_noticed_at_any_depth(p: Predicate, i: int)
    ensures
        p.operation is Inject ==> injects(p),
        p.operation matches PredicateOperation::Not(inner) ==> injects(p) == injects(*inner),
        p.operation matches PredicateOperation::And(ps) ==> (0 <= i < ps@.len() && injects(ps@[i])
            ==> injects(p)),
        p.operation matches PredicateOperation::Or(ps) ==> (0 <= i < ps@.len() && injects(ps@[i])
            ==> injects(p)),
        p.operation matches PredicateOperation::And(ps) ==> (!injects(p) && 0 <= i < ps@.len()
            ==> !injects(ps@[i])),
        p.operation is Equals || p.operation is DeepEquals || p.operation is Contains || p.operation
            is StartsWith || p.operation is EndsWith || p.operation is Matches || p.operation
            is Exists ==> !injects(p),
{
}

/// Serving a stub hands out the response whose turn it is, and moves on; the stub's content and its
/// slot stay, and a stub without responses hands out none and stays as it is.
pub proof fn law_serving_moves_the_turn_alone(
    before: StubState,
    after: StubState,
    position: Option<usize>,
)
    requires
        served(before, after, position),
        before.cycler.index < before.stub.responses@.len(),
    ensures
        after.stub == before.stub,
        after.slot == before.slot,
        position == Some(before.cycler.index),
        ({
            let turns = crate::stub::turns(before.stub.responses@[before.cycler.index as int]);
            &&& before.cycler.served + 1 < turns ==> after.cycler.index == before.cycler.index
                && after.cycler.served == before.cycler.served + 1
            &&& before.cycler.served + 1 >= turns && before.cycler.index + 1
                < before.stub.responses@.len() ==> after.cycler.index == before.cycler.index + 1
                && after.cycler.served == 0
            &&& before.cycler.served + 1 >= turns && before.cycler.index + 1
                == before.stub.responses@.len() ==> after.cycler.index == 0 && after.cycler.served
                == 0
        }),
{
    crate::stub::law_a_response_stays_on_for_its_turns(before.cycler, before.stub.responses@);
}

/// The index looks at a request's method and path as they are, and at its body where that is JSON.
pub proof fn law_the_index_sees_the_request(r: RequestModel, body: Seq<char>)
    ensures
        key_of(r).method == r.method,
        key_of(r).path == r.path,
        r.body is None ==> key_of(r).body is None,
        r.body == Some(body) ==> key_of(r).body == json::json_read(body),
{
}

} // verus!
