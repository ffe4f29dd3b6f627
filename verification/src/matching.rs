//! Finding the stub that answers a request.
//!
//! Stubs are tried in declaration order. A stub takes part where its space is the request's flow
//! and its scenario is in the state it requires; the first that takes part and whose predicates
//! all hold wins.

use crate::bitset::CandidateBits;
use crate::flow_store;
use crate::flow_store::{Contents, FlowStore};
use crate::json;
use crate::json::{Json, JsonModel};
use crate::lookup;
use crate::predicate::{Finding, MatchError, MatchErrorModel};
use crate::predicates;
use crate::predicates::{RequestModel, RequestParts};
use crate::query;
use crate::record;
use crate::regex_cache::RegexCache;
use crate::snapshot;
use crate::snapshot::StubSnapshot;
use crate::stub::StubState;
use crate::stub_index;
use crate::text;
use crate::types::Stub;
use vstd::prelude::*;

verus! {

/// The state of a scenario that has none.
pub const INITIAL_SCENARIO_STATE: &'static str = "Started";

/// One value per header name: the last one sent.
pub open spec fn last_values(h: Seq<(Seq<char>, Seq<Seq<char>>)>) -> Seq<(Seq<char>, Seq<char>)>
    decreases h.len(),
{
    if h.len() == 0 {
        Seq::empty()
    } else if h.last().1.len() == 0 {
        last_values(h.drop_last())
    } else {
        last_values(h.drop_last()).push((h.last().0, h.last().1.last()))
    }
}

/// One value per header name: the last one sent.
pub fn single_values(headers: &Vec<(String, Vec<String>)>) -> (r: Vec<(String, String)>)
    ensures
        lookup::pairs(r@) == last_values(record::header_lines(headers@)),
{
    let ghost all = record::header_lines(headers@);
    let mut out: Vec<(String, String)> = Vec::new();
    let mut i: usize = 0;
    proof {
        assert(lookup::pairs(out@) =~= last_values(all.take(0)));
    }
    while i < headers.len()
        invariant
            i <= headers@.len(),
            all == record::header_lines(headers@),
            lookup::pairs(out@) == last_values(all.take(i as int)),
        decreases headers@.len() - i,
    {
        let h = &headers[i];
        let ghost had = out@;
        proof {
            assert(all.take(i + 1).drop_last() =~= all.take(i as int));
            assert(all.take(i + 1).last() == all[i as int]);
        }
        if h.1.len() > 0 {
            let value: String = h.1[h.1.len() - 1].as_str().to_owned();
            let name: String = h.0.as_str().to_owned();
            let ghost pair = (name@, value@);
            out.push((name, value));
            proof {
                assert(lookup::pairs(out@) =~= lookup::pairs(had).push(pair));
            }
        }
        i += 1;
    }
    proof {
        assert(all.take(all.len() as int) =~= all);
    }
    out
}

/// The name after `header:` in a flow id source.
pub open spec fn flow_header(source: Seq<char>) -> Option<Seq<char>> {
    if source.len() >= 7 && source.take(7) == "header:"@ {
        Some(source.skip(7))
    } else {
        None
    }
}

/// The first value of the first header whose name is `name`, whatever its case.
pub open spec fn first_value(
    h: Seq<(Seq<char>, Seq<Seq<char>>)>,
    name: Seq<char>,
) -> Option<Seq<char>> {
    match lookup::find_entry(h, name, false) {
        Some(values) => if values.len() > 0 {
            Some(values[0])
        } else {
            None
        },
        None => None,
    }
}

/// The flow a request belongs to: the named header's first value, and the port where the source is
/// no header, or the request does not carry it.
pub open spec fn flow_of(
    source: Seq<char>,
    h: Seq<(Seq<char>, Seq<Seq<char>>)>,
    port: u16,
) -> Seq<char> {
    match flow_header(source) {
        Some(name) => match first_value(h, name) {
            Some(v) => v,
            None => text::decimal(port as nat),
        },
        None => text::decimal(port as nat),
    }
}

/// The flow a request belongs to.
pub fn flow_id_for(source: &str, headers: &Vec<(String, Vec<String>)>, port: u16) -> (r: String)
    ensures
        r@ == flow_of(source@, record::header_lines(headers@), port),
{
    let chars: Vec<char> = text::chars_of(source);
    if chars.len() >= 7 {
        let prefix: String = text::text_of(&chars, 0, 7);
        proof {
            assert(source@.subrange(0, 7) =~= source@.take(7));
        }
        if text::same_text(prefix.as_str(), "header:") {
            let name: String = text::text_of(&chars, 7, chars.len());
            proof {
                assert(source@.subrange(7, source@.len() as int) =~= source@.skip(7));
            }
            let ghost all = record::header_lines(headers@);
            let mut i: usize = 0;
            while i < headers.len()
                invariant
                    i <= headers@.len(),
                    all == record::header_lines(headers@),
                    name@ == source@.skip(7),
                    source@.len() >= 7,
                    source@.take(7) == "header:"@,
                    forall|k: int|
                        0 <= k < i ==> !text::text_eq((#[trigger] all[k]).0, name@, false),
                decreases headers@.len() - i,
            {
                if text::texts_equal(headers[i].0.as_str(), name.as_str(), false) {
                    proof {
                        assert(text::text_eq(all[i as int].0, name@, false));
                        lookup::lemma_find_at(all, name@, false, i as int);
                    }
                    if headers[i].1.len() > 0 {
                        return headers[i].1[0].as_str().to_owned();
                    }
                    return text::decimal_text(port as u64);
                }
                i += 1;
            }
            proof {
                lookup::lemma_find_none(all, name@, false);
            }
        }
    }
    text::decimal_text(port as u64)
}

/// Whether a request's headers announce a form.
pub open spec fn is_form(headers: Seq<(Seq<char>, Seq<char>)>) -> bool {
    match lookup::find_entry(headers, "content-type"@, false) {
        Some(v) => text::text_contains(v, "application/x-www-form-urlencoded"@, true),
        None => false,
    }
}

/// The form a request carries, where its headers announce one and it has a body.
pub open spec fn form_of(
    headers: Seq<(Seq<char>, Seq<char>)>,
    body: Option<Seq<char>>,
) -> Option<Seq<(Seq<char>, Seq<char>)>> {
    match body {
        Some(b) => if is_form(headers) {
            Some(query::query_parameters(b))
        } else {
            None
        },
        None => None,
    }
}

/// An optional list as contracts see it.
pub open spec fn optional_list(list: Option<Vec<(String, String)>>) -> Option<
    Seq<(Seq<char>, Seq<char>)>,
> {
    match list {
        Some(l) => Some(lookup::pairs(l@)),
        None => None,
    }
}

/// The form a request carries, where its headers announce one and it has a body. What cannot be
/// decoded is passed through as it is.
pub fn parse_form_data(headers: &Vec<(String, String)>, body: Option<&str>) -> (r: Option<
    Vec<(String, String)>,
>)
    ensures
        optional_list(r) == form_of(lookup::pairs(headers@), text::optional_str(body)),
{
    let announced: bool = match lookup::find(headers, "content-type", false) {
        Some(v) => text::contains_text(v.as_str(), "application/x-www-form-urlencoded", true),
        None => false,
    };
    match body {
        Some(b) => if announced {
            Some(query::parse_query_string(b))
        } else {
            None
        },
        None => None,
    }
}

/// The request that predicates see.
pub open spec fn request_seen(
    method: Seq<char>,
    path: Seq<char>,
    headers: Seq<(Seq<char>, Seq<Seq<char>>)>,
    query: Option<Seq<char>>,
    body: Option<Seq<char>>,
    request_from: Option<Seq<char>>,
    client_ip: Option<Seq<char>>,
) -> RequestModel {
    RequestModel {
        method,
        path,
        query,
        headers: last_values(headers),
        body,
        request_from,
        client_ip,
        form: form_of(last_values(headers), body),
    }
}

/// The scenario a stub belongs to; the unnamed one where it names none.
pub open spec fn scenario_of(s: Stub) -> Seq<char> {
    match s.scenario_name {
        Some(n) => n@,
        None => Seq::empty(),
    }
}

/// What is said of a scenario state that is not a string.
pub open spec fn not_text(flow_id: Seq<char>, scenario: Seq<char>, v: JsonModel) -> Seq<char> {
    "scenario state for "@ + flow_id + "/"@ + scenario + " is not a string: "@ + json::json_text(v)
}

/// The state a scenario is in, by what the store holds.
pub open spec fn state_of(c: Contents, flow_id: Seq<char>, scenario: Seq<char>) -> Result<
    Seq<char>,
    Seq<char>,
> {
    match flow_store::held(c, flow_id, scenario) {
        Some(JsonModel::Text(s)) => Ok(s),
        Some(v) => Err(not_text(flow_id, scenario, v)),
        None => Ok(INITIAL_SCENARIO_STATE@),
    }
}

/// A text result as contracts see it.
pub open spec fn text_result(r: Result<String, String>) -> Result<Seq<char>, Seq<char>> {
    match r {
        Ok(s) => Ok(s@),
        Err(e) => Err(e@),
    }
}

/// The state a scenario is in. A store that fails, and a value that is no string, are errors: to
/// take either for the initial state would let the wrong stub answer.
pub fn read_scenario_state<S: FlowStore>(store: &S, flow_id: &str, scenario: &str) -> (r: Result<
    String,
    String,
>)
    ensures
        r is Ok ==> text_result(r) == state_of(store.contents(), flow_id@, scenario@),
        store.reliable() ==> text_result(r) == state_of(store.contents(), flow_id@, scenario@),
{
    match store.get(flow_id, scenario) {
        Ok(Some(v)) => match v.as_text() {
            Some(s) => Ok(s.as_str().to_owned()),
            None => {
                let mut m: String = "scenario state for ".to_owned();
                m.append(flow_id);
                m.append("/");
                m.append(scenario);
                m.append(" is not a string: ");
                m.append(v.to_text().as_str());
                Err(m)
            },
        },
        Ok(None) => Ok(INITIAL_SCENARIO_STATE.to_owned()),
        Err(e) => Err(e),
    }
}

/// Whether a stub takes part: its space is the request's flow, and its scenario is in the state it
/// requires.
pub open spec fn takes_part(s: Stub, flow_id: Seq<char>, c: Contents) -> Result<
    bool,
    MatchErrorModel,
> {
    if s.space is Some && s.space->0@ != flow_id {
        Ok(false)
    } else {
        match s.required_scenario_state {
            Some(required) => match state_of(c, flow_id, scenario_of(s)) {
                Ok(state) => Ok(state == required@),
                Err(e) => Err(MatchErrorModel::Store(e)),
            },
            None => Ok(true),
        }
    }
}

/// What trying one stub comes to.
pub open spec fn tried(
    s: Stub,
    r: RequestModel,
    findings: Seq<Finding>,
    flow_id: Seq<char>,
    c: Contents,
) -> Result<bool, MatchErrorModel> {
    match takes_part(s, flow_id, c) {
        Ok(true) => predicates::all_verdict(s.predicates@, r, findings),
        other => other,
    }
}

/// The first of the candidates from `k` on that answers the request.
pub open spec fn first_match(
    stubs: Seq<StubState>,
    candidates: Set<int>,
    k: int,
    r: RequestModel,
    findings: Seq<Finding>,
    flow_id: Seq<char>,
    c: Contents,
) -> Result<Option<int>, MatchErrorModel>
    decreases stubs.len() - k,
{
    if k >= stubs.len() {
        Ok(None)
    } else if !candidates.contains(k) {
        first_match(stubs, candidates, k + 1, r, findings, flow_id, c)
    } else {
        match tried(stubs[k].stub, r, findings, flow_id, c) {
            Ok(true) => Ok(Some(k)),
            Ok(false) => first_match(stubs, candidates, k + 1, r, findings, flow_id, c),
            Err(e) => Err(e),
        }
    }
}

/// A match as contracts see it.
pub open spec fn found_at(r: Result<Option<usize>, MatchError>) -> Result<
    Option<int>,
    MatchErrorModel,
> {
    match r {
        Ok(Some(i)) => Ok(Some(i as int)),
        Ok(None) => Ok(None),
        Err(e) => Err(e@),
    }
}

/// Nothing is found among stubs that are no candidates.
proof fn lemma_skip(
    stubs: Seq<StubState>,
    candidates: Set<int>,
    from: int,
    to: int,
    r: RequestModel,
    findings: Seq<Finding>,
    flow_id: Seq<char>,
    c: Contents,
)
    requires
        0 <= from <= to <= stubs.len(),
        forall|i: int| from <= i < to ==> !candidates.contains(i),
    ensures
        first_match(stubs, candidates, from, r, findings, flow_id, c) == first_match(
            stubs,
            candidates,
            to,
            r,
            findings,
            flow_id,
            c,
        ),
    decreases to - from,
{
    if from < to {
        lemma_skip(stubs, candidates, from + 1, to, r, findings, flow_id, c);
    }
}

/// Whether a stub takes part.
fn check_gates<S: FlowStore>(stub: &Stub, flow_id: &str, store: &S) -> (r: Result<bool, MatchError>)
    ensures
        predicates::outcome(r) == takes_part(*stub, flow_id@, store.contents()) || (r is Err
            && r->Err_0 is Store && stub.required_scenario_state is Some && !store.reliable()),
{
    if let Some(space) = &stub.space {
        if !text::same_text(space.as_str(), flow_id) {
            return Ok(false);
        }
    }
    match &stub.required_scenario_state {
        Some(required) => {
            let scenario: &str = match &stub.scenario_name {
                Some(n) => n.as_str(),
                None => "",
            };
            proof {
                reveal_strlit("");
                assert(scenario@ =~= scenario_of(*stub));
            }
            match read_scenario_state(store, flow_id, scenario) {
                Ok(state) => Ok(text::same_text(state.as_str(), required.as_str())),
                Err(e) => Err(MatchError::Store(e)),
            }
        },
        None => Ok(true),
    }
}

/// Tries the stubs with these ids, in order.
fn try_stubs<S: FlowStore>(
    stubs: &Vec<StubState>,
    ids: &Vec<usize>,
    parts: &RequestParts<'_>,
    body_json: Option<&Json>,
    findings: &Vec<Finding>,
    flow_id: &str,
    store: &S,
    cache: &mut RegexCache,
    Ghost(candidates): Ghost<Set<int>>,
) -> (r: Result<Option<usize>, MatchError>)
    requires
        old(cache).wf(),
        body_json is Some ==> parts.body is Some && json::json_read(parts.body->0@) == Some(
            body_json->0.model(),
        ),
        forall|i: int, j: int| 0 <= i < j < ids@.len() ==> ids@[i] < ids@[j],
        forall|i: int|
            0 <= i < ids@.len() ==> (#[trigger] ids@[i]) < stubs@.len() && candidates.contains(
                ids@[i] as int,
            ),
        forall|id: int|
            0 <= id < stubs@.len() && candidates.contains(id) ==> ids@.contains(id as usize),
    ensures
        final(cache).wf(),
        r matches Ok(Some(i)) ==> i < stubs@.len(),
        found_at(r) == first_match(
            stubs@,
            candidates,
            0,
            parts@,
            findings@,
            flow_id@,
            store.contents(),
        ) || (r is Err && r->Err_0 is Store && !store.reliable() && snapshot::any_gated(stubs@)),
{
    let query_map: Vec<(String, String)> = query::parse_query(parts.query);
    let ghost c = store.contents();
    let ghost wanted = first_match(stubs@, candidates, 0, parts@, findings@, flow_id@, c);
    let ghost mut next: int = 0;
    let mut k: usize = 0;
    while k < ids.len()
        invariant
            cache.wf(),
            c == store.contents(),
            k <= ids@.len(),
            0 <= next <= stubs@.len(),
            body_json is Some ==> parts.body is Some && json::json_read(parts.body->0@) == Some(
                body_json->0.model(),
            ),
            lookup::pairs(query_map@) == query::optional_query_parameters(parts@.query),
            forall|i: int, j: int| 0 <= i < j < ids@.len() ==> ids@[i] < ids@[j],
            forall|i: int|
                0 <= i < ids@.len() ==> (#[trigger] ids@[i]) < stubs@.len() && candidates.contains(
                    ids@[i] as int,
                ),
            forall|id: int|
                0 <= id < stubs@.len() && candidates.contains(id) ==> ids@.contains(id as usize),
            forall|i: int| 0 <= i < k ==> (#[trigger] ids@[i]) < next,
            forall|i: int| k <= i < ids@.len() ==> (#[trigger] ids@[i]) >= next,
            wanted == first_match(stubs@, candidates, 0, parts@, findings@, flow_id@, c),
            wanted == first_match(stubs@, candidates, next, parts@, findings@, flow_id@, c),
        decreases ids@.len() - k,
    {
        let id: usize = ids[k];
        proof {
            assert forall|i: int| next <= i < id implies !candidates.contains(i) by {
                if candidates.contains(i) {
                    assert(ids@.contains(i as usize));
                    let j = choose|j: int| 0 <= j < ids@.len() && ids@[j] == i as usize;
                    if j < k {
                        assert(ids@[j] < next);
                    } else if j > k {
                        assert(ids@[k as int] < ids@[j]);
                    }
                }
            }
            lemma_skip(stubs@, candidates, next, id as int, parts@, findings@, flow_id@, c);
        }
        let stub: &Stub = &stubs[id].stub;
        match check_gates(stub, flow_id, store) {
            Err(e) => {
                proof {
                    if stub.required_scenario_state is Some {
                        assert(snapshot::stub_gated(stubs@[id as int]));
                    }
                }
                return Err(e);
            },
            Ok(false) => {},
            Ok(true) => match predicates::stub_matches_inner(
                &stub.predicates,
                parts,
                body_json,
                Some(&query_map),
                findings,
                cache,
            ) {
                Err(e) => {
                    return Err(e);
                },
                Ok(true) => {
                    return Ok(Some(id));
                },
                Ok(false) => {},
            },
        }
        proof {
            assert forall|i: int| k + 1 <= i < ids@.len() implies (#[trigger] ids@[i]) >= id + 1 by {
                assert(ids@[k as int] < ids@[i]);
            }
            assert forall|i: int| 0 <= i < k + 1 implies (#[trigger] ids@[i]) < id + 1 by {
                if i < k {
                    assert(ids@[i] < ids@[k as int]);
                }
            }
            next = id + 1;
        }
        k += 1;
    }
    proof {
        assert(stubs.len() == stubs@.len());
        assert forall|i: int| next <= i < stubs@.len() implies !candidates.contains(i) by {
            if candidates.contains(i) {
                assert(ids@.contains(i as usize));
                let j = choose|j: int| 0 <= j < ids@.len() && ids@[j] == i as usize;
                assert(ids@[j] < next);
            }
        }
        lemma_skip(
            stubs@,
            candidates,
            next,
            stubs@.len() as int,
            parts@,
            findings@,
            flow_id@,
            c,
        );
    }
    Ok(None)
}

/// The stub that answers a request, among the candidates of the index. Where trying every stub gives
/// an answer, this gives the same one.
pub fn find_in<S: FlowStore>(
    snap: &StubSnapshot,
    parts: &RequestParts<'_>,
    findings: &Vec<Finding>,
    flow_id: &str,
    store: &S,
    cache: &mut RegexCache,
) -> (r: Result<Option<usize>, MatchError>)
    requires
        snap.wf(),
        old(cache).wf(),
    ensures
        final(cache).wf(),
        r matches Ok(Some(i)) ==> i < snap.states().len(),
        found_at(r) == first_match(
            snap.states(),
            snap.lookup().chosen(snap.states(), snapshot::key_of(parts@)),
            0,
            parts@,
            findings@,
            flow_id@,
            store.contents(),
        ) || (r is Err && r->Err_0 is Store && !store.reliable() && snapshot::any_gated(
            snap.states(),
        )),
        ({
            let linear = first_match(
                snap.states(),
                stub_index::all_ids(snap.states().len()),
                0,
                parts@,
                findings@,
                flow_id@,
                store.contents(),
            );
            linear is Ok ==> found_at(r) == linear || (r is Err && r->Err_0 is Store
                && !store.reliable() && snapshot::any_gated(snap.states()))
        }),
{
    let body_json: Option<Json> = match parts.body {
        Some(b) => Json::parse(b),
        None => None,
    };
    let bits: CandidateBits = snap.candidates_with_body(
        parts.method,
        parts.path,
        body_json.as_ref(),
    );
    let ids: Vec<usize> = bits.iter();
    let ghost candidates = bits@;
    proof {
        bits.lemma_members_in_space();
        snap.law_the_index_covers_the_stubs();
        let all = stub_index::all_ids(snap.states().len());
        if first_match(snap.states(), all, 0, parts@, findings@, flow_id@, store.contents()) is Ok {
            law_index_preserves_the_first_match(
                snap.lookup(),
                snap.states(),
                0,
                parts@,
                findings@,
                flow_id@,
                store.contents(),
            );
        }
    }
    try_stubs(
        snap.stubs(),
        &ids,
        parts,
        body_json.as_ref(),
        findings,
        flow_id,
        store,
        cache,
        Ghost(candidates),
    )
}

/// The stub that answers a request, trying every stub.
pub fn find_linear<S: FlowStore>(
    snap: &StubSnapshot,
    parts: &RequestParts<'_>,
    findings: &Vec<Finding>,
    flow_id: &str,
    store: &S,
    cache: &mut RegexCache,
) -> (r: Result<Option<usize>, MatchError>)
    requires
        snap.wf(),
        old(cache).wf(),
    ensures
        final(cache).wf(),
        r matches Ok(Some(i)) ==> i < snap.states().len(),
        found_at(r) == first_match(
            snap.states(),
            stub_index::all_ids(snap.states().len()),
            0,
            parts@,
            findings@,
            flow_id@,
            store.contents(),
        ) || (r is Err && r->Err_0 is Store && !store.reliable() && snapshot::any_gated(
            snap.states(),
        )),
{
    let body_json: Option<Json> = match parts.body {
        Some(b) => Json::parse(b),
        None => None,
    };
    let stubs: &Vec<StubState> = snap.stubs();
    let n: usize = stubs.len();
    let mut ids: Vec<usize> = Vec::new();
    while ids.len() < n
        invariant
            ids@.len() <= n,
            forall|i: int| 0 <= i < ids@.len() ==> #[trigger] ids@[i] == i,
        decreases n - ids@.len(),
    {
        let at: usize = ids.len();
        ids.push(at);
    }
    proof {
        assert forall|id: int|
            0 <= id < stubs@.len() && #[trigger] stub_index::all_ids(n as nat).contains(
                id,
            ) implies ids@.contains(id as usize) by {
            assert(ids@[id] == id);
        }
    }
    try_stubs(
        stubs,
        &ids,
        parts,
        body_json.as_ref(),
        findings,
        flow_id,
        store,
        cache,
        Ghost(stub_index::all_ids(n as nat)),
    )
}

/// The index changes no answer: what trying every stub comes to, trying the candidates comes to as
/// well. (A stub the index rules out is not consulted, so an error that consulting it would give
/// does not arise.)
pub proof fn law_index_preserves_the_first_match(
    index: crate::stub_index::StubIndex,
    stubs: Seq<StubState>,
    k: int,
    r: RequestModel,
    findings: Seq<Finding>,
    flow_id: Seq<char>,
    c: Contents,
)
    requires
        index.covers(stubs),
        0 <= k <= stubs.len(),
        snapshot::body_well_read(r),
        first_match(
            stubs,
            stub_index::all_ids(stubs.len()),
            k,
            r,
            findings,
            flow_id,
            c,
        ) is Ok,
    ensures
        first_match(
            stubs,
            index.chosen(stubs, snapshot::key_of(r)),
            k,
            r,
            findings,
            flow_id,
            c,
        ) == first_match(stubs, stub_index::all_ids(stubs.len()), k, r, findings, flow_id, c),
    decreases stubs.len() - k,
{
    if k < stubs.len() {
        let all = stub_index::all_ids(stubs.len());
        let chosen = index.chosen(stubs, snapshot::key_of(r));
        assert(all.contains(k));
        let ps = stub_index::predicates_of(stubs, k);
        match tried(stubs[k].stub, r, findings, flow_id, c) {
            Ok(true) => {
                assert(predicates::all_verdict(ps, r, findings) == Ok::<bool, MatchErrorModel>(
                    true,
                ));
                snapshot::law_candidates_cover_matches(index, stubs, k, r, findings);
                assert(chosen.contains(k));
            },
            Ok(false) => {
                law_index_preserves_the_first_match(
                    index,
                    stubs,
                    k + 1,
                    r,
                    findings,
                    flow_id,
                    c,
                );
            },
            Err(e) => {},
        }
    }
}

/// The stub found answers the request, and no candidate before it does.
pub proof fn law_the_first_match_wins(
    stubs: Seq<StubState>,
    candidates: Set<int>,
    k: int,
    r: RequestModel,
    findings: Seq<Finding>,
    flow_id: Seq<char>,
    c: Contents,
    at: int,
)
    requires
        0 <= k <= stubs.len(),
        first_match(stubs, candidates, k, r, findings, flow_id, c) == Ok::<
            Option<int>,
            MatchErrorModel,
        >(Some(at)),
    ensures
        k <= at < stubs.len(),
        candidates.contains(at),
        tried(stubs[at].stub, r, findings, flow_id, c) == Ok::<bool, MatchErrorModel>(true),
        forall|i: int|
            k <= i < at && candidates.contains(i) ==> tried(
                (#[trigger] stubs[i]).stub,
                r,
                findings,
                flow_id,
                c,
            ) == Ok::<bool, MatchErrorModel>(false),
    decreases stubs.len() - k,
{
    if k < stubs.len() {
        if !candidates.contains(k) || tried(stubs[k].stub, r, findings, flow_id, c) == Ok::<
            bool,
            MatchErrorModel,
        >(false) {
            law_the_first_match_wins(stubs, candidates, k + 1, r, findings, flow_id, c, at);
        }
    }
}

/// Of each header predicates see the last value that was sent, in the order of the names; a name
/// without a value is not seen. What is seen of two lists together is what is seen of each.
pub proof fn law_the_last_value_is_seen(
    a: Seq<(Seq<char>, Seq<Seq<char>>)>,
    b: Seq<(Seq<char>, Seq<Seq<char>>)>,
    name: Seq<char>,
    values: Seq<Seq<char>>,
    last: Seq<char>,
)
    ensures
        last_values(a + b) == last_values(a) + last_values(b),
        last_values(seq![(name, values + seq![last])]) == seq![(name, last)],
        last_values(seq![(name, Seq::empty())]).len() == 0,
    decreases b.len(),
{
    let none = Seq::<(Seq<char>, Seq<Seq<char>>)>::empty();
    let one = seq![(name, values + seq![last])];
    assert(one.drop_last() =~= none);
    assert(one.last() == (name, values + seq![last]));
    assert((values + seq![last]).last() == last);
    assert(last_values(one.drop_last()) =~= Seq::<(Seq<char>, Seq<char>)>::empty());
    assert(last_values(one) =~= seq![(name, last)]);
    let bare = seq![(name, Seq::<Seq<char>>::empty())];
    assert(bare.drop_last() =~= none);
    assert(bare.last().1.len() == 0);
    assert(last_values(bare).len() == 0);
    if b.len() == 0 {
        assert(a + b =~= a);
        assert(last_values(a) + last_values(b) =~= last_values(a));
    } else {
        law_the_last_value_is_seen(a, b.drop_last(), name, values, last);
        assert((a + b).drop_last() =~= a + b.drop_last());
        assert((a + b).last() == b.last());
        assert(last_values(a + b) =~= last_values(a) + last_values(b));
    }
}

/// A flow is named by the first value of the header that the source names, in whatever case; and by
/// the port where the source names no header, or the request has no such header.
pub proof fn law_flows_are_named_by_their_header(
    source: Seq<char>,
    name: Seq<char>,
    h: Seq<(Seq<char>, Seq<Seq<char>>)>,
    port: u16,
    at: int,
)
    ensures
        0 <= at < h.len() && text::text_eq(h[at].0, name, false) && h[at].1.len() > 0 && (forall|
            i: int,
        |
            0 <= i < at ==> !text::text_eq((#[trigger] h[i]).0, name, false)) ==> flow_of(
            "header:"@ + name,
            h,
            port,
        ) == h[at].1[0],
        (forall|i: int| 0 <= i < h.len() ==> !text::text_eq((#[trigger] h[i]).0, name, false))
            ==> flow_of("header:"@ + name, h, port) == text::decimal(port as nat),
        0 <= at < h.len() && text::text_eq(h[at].0, name, false) && h[at].1.len() == 0 && (forall|
            i: int,
        |
            0 <= i < at ==> !text::text_eq((#[trigger] h[i]).0, name, false)) ==> flow_of(
            "header:"@ + name,
            h,
            port,
        ) == text::decimal(port as nat),
        (source.len() < 7 || source.take(7) != "header:"@) ==> flow_of(source, h, port)
            == text::decimal(port as nat),
{
    reveal_strlit("header:");
    let named = "header:"@ + name;
    assert(named.take(7) =~= "header:"@);
    assert(named.skip(7) =~= name);
    if 0 <= at < h.len() && text::text_eq(h[at].0, name, false) && (forall|i: int|
        0 <= i < at ==> !text::text_eq((#[trigger] h[i]).0, name, false)) {
        lookup::lemma_find_at(h, name, false, at);
    }
    if forall|i: int| 0 <= i < h.len() ==> !text::text_eq((#[trigger] h[i]).0, name, false) {
        lookup::lemma_find_none(h, name, false);
    }
}

/// A request carries a form exactly where its content type announces one and it has a body; the
/// form's entries are the body's parameters.
pub proof fn law_forms_are_announced(
    headers: Seq<(Seq<char>, Seq<char>)>,
    value: Seq<char>,
    body: Seq<char>,
)
    ensures
        form_of(headers, None) is None,
        lookup::find_entry(headers, "content-type"@, false) == Some(value) && text::text_contains(
            value,
            "application/x-www-form-urlencoded"@,
            true,
        ) ==> form_of(headers, Some(body)) == Some(query::query_parameters(body)),
        lookup::find_entry(headers, "content-type"@, false) == Some(value) && !text::text_contains(
            value,
            "application/x-www-form-urlencoded"@,
            true,
        ) ==> form_of(headers, Some(body)) is None,
        !lookup::has_key(headers, "content-type"@, false) ==> form_of(headers, Some(body)) is None,
{
    lookup::lemma_find_none(headers, "content-type"@, false);
}

/// Predicates see the request as it came: its method, path, query, body and where it is from, the
/// last value of each of its headers, and the form that its body is where it announces one.
pub proof fn law_predicates_see_the_request(
    method: Seq<char>,
    path: Seq<char>,
    headers: Seq<(Seq<char>, Seq<Seq<char>>)>,
    query: Option<Seq<char>>,
    body: Option<Seq<char>>,
    request_from: Option<Seq<char>>,
    client_ip: Option<Seq<char>>,
)
    ensures
        ({
            let r = request_seen(method, path, headers, query, body, request_from, client_ip);
            &&& r.method == method
            &&& r.path == path
            &&& r.query == query
            &&& r.body == body
            &&& r.request_from == request_from
            &&& r.client_ip == client_ip
            &&& r.headers == last_values(headers)
            &&& body is None ==> r.form is None
            &&& r.form is Some ==> r.form->0 == query::query_parameters(body->0)
        }),
{
}

/// A scenario that was never moved is in the state that all start in, one that was is in the state
/// that is held for it, and a state that is no text is an error.
pub proof fn law_scenarios_start_at_the_start(
    c: Contents,
    flow_id: Seq<char>,
    scenario: Seq<char>,
    s: Seq<char>,
    v: JsonModel,
)
    ensures
        !c.dom().contains((flow_id, scenario)) ==> state_of(c, flow_id, scenario) == Ok::<
            Seq<char>,
            Seq<char>,
        >("Started"@),
        c.dom().contains((flow_id, scenario)) && c[(flow_id, scenario)] == JsonModel::Text(s)
            ==> state_of(c, flow_id, scenario) == Ok::<Seq<char>, Seq<char>>(s),
        c.dom().contains((flow_id, scenario)) && c[(flow_id, scenario)] == v && v !is Text
            ==> state_of(c, flow_id, scenario) == Err::<Seq<char>, Seq<char>>(
            "scenario state for "@ + flow_id + "/"@ + scenario + " is not a string: "@
                + json::json_text(v),
        ),
{
}

/// A stub of a space takes part in that flow alone, one of no space in every flow; and one that
/// requires a state only where its scenario is in that very state. A state that cannot be read
/// fails, and is no mismatch; but a stub of another space never asks.
pub proof fn law_stubs_take_part_in_their_space(
    s: Stub,
    flow_id: Seq<char>,
    c: Contents,
    state: Seq<char>,
)
    ensures
        s.space is Some && s.space->0@ != flow_id ==> takes_part(s, flow_id, c) == Ok::<
            bool,
            MatchErrorModel,
        >(false),
        (s.space is None || s.space->0@ == flow_id) && s.required_scenario_state is None
            ==> takes_part(s, flow_id, c) == Ok::<bool, MatchErrorModel>(true),
        (s.space is None || s.space->0@ == flow_id) && s.required_scenario_state is Some ==> {
            let scenario = if s.scenario_name is Some {
                s.scenario_name->0@
            } else {
                Seq::<char>::empty()
            };
            &&& state_of(c, flow_id, scenario) == Ok::<Seq<char>, Seq<char>>(state) ==> takes_part(
                s,
                flow_id,
                c,
            ) == Ok::<bool, MatchErrorModel>(state == s.required_scenario_state->0@)
            &&& state_of(c, flow_id, scenario) is Err ==> takes_part(s, flow_id, c) is Err
        },
{
}

/// A stub is tried by its predicates where it takes part, and only there: no predicate of a stub
/// that does not take part is asked.
pub proof fn law_only_stubs_that_take_part_are_tried(
    s: Stub,
    r: RequestModel,
    findings: Seq<Finding>,
    flow_id: Seq<char>,
    c: Contents,
)
    ensures
        takes_part(s, flow_id, c) == Ok::<bool, MatchErrorModel>(false) ==> tried(
            s,
            r,
            findings,
            flow_id,
            c,
        ) == Ok::<bool, MatchErrorModel>(false),
        takes_part(s, flow_id, c) == Ok::<bool, MatchErrorModel>(true) ==> tried(
            s,
            r,
            findings,
            flow_id,
            c,
        ) == predicates::all_verdict(s.predicates@, r, findings),
        takes_part(s, flow_id, c) is Err ==> tried(s, r, findings, flow_id, c) is Err,
{
}

/// A candidate that answers is found where none before it answers or fails; where none answers
/// nothing is found; and a failure before any answer fails the whole.
pub proof fn law_matches_are_found(
    stubs: Seq<StubState>,
    candidates: Set<int>,
    k: int,
    r: RequestModel,
    findings: Seq<Finding>,
    flow_id: Seq<char>,
    c: Contents,
    at: int,
)
    requires
        0 <= k <= at <= stubs.len(),
        forall|i: int|
            k <= i < at && candidates.contains(i) ==> tried(
                (#[trigger] stubs[i]).stub,
                r,
                findings,
                flow_id,
                c,
            ) == Ok::<bool, MatchErrorModel>(false),
        at < stubs.len() ==> candidates.contains(at),
    ensures
        at == stubs.len() ==> first_match(stubs, candidates, k, r, findings, flow_id, c) == Ok::<
            Option<int>,
            MatchErrorModel,
        >(None),
        at < stubs.len() && tried(stubs[at].stub, r, findings, flow_id, c) == Ok::<
            bool,
            MatchErrorModel,
        >(true) ==> first_match(stubs, candidates, k, r, findings, flow_id, c) == Ok::<
            Option<int>,
            MatchErrorModel,
        >(Some(at)),
        at < stubs.len() ==> (tried(stubs[at].stub, r, findings, flow_id, c) matches Err(e)
            ==> first_match(stubs, candidates, k, r, findings, flow_id, c) == Err::<
            Option<int>,
            MatchErrorModel,
        >(e)),
    decreases at - k,
{
    if k < at {
        assert(candidates.contains(k) ==> tried(stubs[k].stub, r, findings, flow_id, c) == Ok::<
            bool,
            MatchErrorModel,
        >(false));
        law_matches_are_found(stubs, candidates, k + 1, r, findings, flow_id, c, at);
    }
}

} // verus!
