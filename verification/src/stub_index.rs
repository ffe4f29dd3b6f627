//! The candidate prefilter of stub matching.
//!
//! Evaluating every stub's predicates on every request is a linear scan. This index narrows it to
//! the stubs that could match. It is a set of independent dimensions, one per request attribute:
//! method, exact path, path literals, path patterns and deep-equal JSON bodies. Each answers which
//! stubs its attribute cannot rule out, as a [`CandidateBits`]; the candidates are the
//! intersection, walked in declaration order.
//!
//! A dimension only excludes a stub that provably cannot match. Whatever it cannot index is among
//! its `always` stubs, so the candidates are a superset of the matches and full evaluation decides.

use crate::bitset::CandidateBits;
use crate::json::{Json, JsonModel, JsonObject};
use crate::lookup;
use crate::predicate::{Predicate, PredicateOperation, PredicateParameters};
use crate::record;
use crate::regex_cache;
use crate::structural_hash;
use crate::stub::StubState;
use crate::text;
use aho_corasick::AhoCorasick;
use regex_automata::meta;
use std::collections::HashMap;
use vstd::prelude::*;

verus! {

broadcast use vstd::std_specs::hash::group_hash_axioms;

/// The request attributes the index looks at.
pub struct DimensionRequest<'a> {
    pub method: &'a str,
    pub path: &'a str,
    /// The body read as JSON, where it is JSON.
    pub body: Option<&'a Json>,
}

/// The request attributes as contracts see them.
pub struct RequestKey {
    pub method: Seq<char>,
    pub path: Seq<char>,
    pub body: Option<JsonModel>,
}

impl<'a> DimensionRequest<'a> {
    /// The attributes as contracts see them.
    pub open spec fn view(&self) -> RequestKey {
        RequestKey {
            method: self.method@,
            path: self.path@,
            body: match self.body {
                Some(j) => Some(j.model()),
                None => None,
            },
        }
    }
}

/// All ids below `n`.
pub open spec fn all_ids(n: nat) -> Set<int> {
    Set::new(|i: int| 0 <= i < n)
}

/// One pruning dimension of the index.
pub trait Dimension {
    /// How many stubs the dimension spans.
    spec fn space(&self) -> nat;

    /// The dimension's own invariant.
    spec fn valid(&self) -> bool;

    /// The stubs a request's attribute cannot rule out.
    spec fn selected(&self, request: RequestKey) -> Set<int>;

    /// Whether stub `i` is indexed here.
    spec fn indexes(&self, i: int) -> bool;

    /// Writes the stubs that the request cannot rule out into `out`.
    fn select(&self, request: &DimensionRequest<'_>, out: &mut CandidateBits)
        requires
            self.valid(),
            old(out).wf(),
            old(out).space() == self.space(),
        ensures
            final(out).wf(),
            final(out).space() == self.space(),
            final(out)@ == self.selected(request@),
    ;

    /// Whether any stub is indexed here. Where none is, every request selects every stub.
    fn prunes(&self) -> (r: bool)
        requires
            self.valid(),
        ensures
            r == exists|i: int| 0 <= i < self.space() && #[trigger] self.indexes(i),
            !r ==> forall|q: RequestKey| #[trigger] self.selected(q) == all_ids(self.space()),
    ;
}

/// Stub ids by hash.
pub struct Buckets {
    map: HashMap<u64, Vec<usize>>,
}

impl Buckets {
    /// The ids under a hash.
    pub closed spec fn ids(&self, h: u64) -> Seq<usize> {
        if self.map@.dom().contains(h) {
            self.map@[h]@
        } else {
            Seq::empty()
        }
    }

    /// The hashes that have a bucket.
    pub closed spec fn hashes(&self) -> Set<u64> {
        self.map@.dom()
    }

    /// No buckets.
    pub fn new() -> (b: Self)
        ensures
            b.hashes() == Set::<u64>::empty(),
            forall|h: u64| #[trigger] b.ids(h) == Seq::<usize>::empty(),
    {
        Buckets { map: HashMap::new() }
    }

    /// Puts an id under a hash.
    pub fn put(&mut self, h: u64, id: usize)
        ensures
            final(self).hashes() == old(self).hashes().insert(h),
            final(self).ids(h) == old(self).ids(h).push(id),
            forall|k: u64| k != h ==> #[trigger] final(self).ids(k) == old(self).ids(k),
    {
        let mut bucket: Vec<usize> = match self.map.remove(&h) {
            Some(v) => v,
            None => Vec::new(),
        };
        bucket.push(id);
        self.map.insert(h, bucket);
    }

    /// The ids under a hash, where there are any.
    pub fn get(&self, h: u64) -> (r: Option<&Vec<usize>>)
        ensures
            (match r {
                Some(v) => v@ == self.ids(h),
                None => self.ids(h).len() == 0,
            }),
    {
        self.map.get(&h)
    }

    /// Whether there are no buckets.
    pub fn is_empty(&self) -> (r: bool)
        ensures
            r <==> self.hashes() == Set::<u64>::empty(),
            r ==> forall|h: u64| #[trigger] self.ids(h) == Seq::<usize>::empty(),
    {
        proof {
            vstd::set_lib::lemma_set_empty_equivalency_len(self.map@.dom());
        }
        self.map.len() == 0
    }
}

/// The first predicate that has an anchor decides.
pub open spec fn first_some<T>(ps: Seq<Predicate>, f: spec_fn(Predicate) -> Option<T>) -> Option<T>
    decreases ps.len(),
{
    if ps.len() == 0 {
        None
    } else {
        match f(ps[0]) {
            Some(t) => Some(t),
            None => first_some(ps.drop_first(), f),
        }
    }
}

/// The value of a named field, where it is a string.
pub open spec fn text_field(fields: Seq<(Seq<char>, JsonModel)>, name: Seq<char>) -> Option<
    Seq<char>,
> {
    match lookup::find_entry(fields, name, true) {
        Some(JsonModel::Text(s)) => Some(s),
        _ => None,
    }
}

/// Values are compared as the request has them, and case does not matter.
pub open spec fn safely_indexable(p: PredicateParameters) -> bool {
    p.value_preserving() && p.case_sensitive != Some(true)
}

/// The path a predicate requires exactly.
pub open spec fn path_anchor_of(p: Predicate) -> Option<Seq<char>> {
    match p.operation {
        PredicateOperation::Equals(f) => if safely_indexable(p.parameters) {
            text_field(f@, "path"@)
        } else {
            None
        },
        _ => None,
    }
}

/// The method a predicate requires.
pub open spec fn method_anchor_of(p: Predicate) -> Option<Seq<char>> {
    match p.operation {
        PredicateOperation::Equals(f) => if safely_indexable(p.parameters) {
            text_field(f@, "method"@)
        } else {
            None
        },
        _ => None,
    }
}

/// Which relation a literal requires between itself and the path.
#[derive(Clone, Copy, Debug, PartialEq, Eq, Structural)]
pub enum LiteralKind {
    Contains,
    StartsWith,
    EndsWith,
}

/// A required path literal as contracts see it.
pub struct LiteralModel {
    pub text: Seq<char>,
    pub kind: LiteralKind,
    pub case_sensitive: bool,
}

/// The path literal a predicate requires.
pub open spec fn literal_anchor_of(p: Predicate) -> Option<LiteralModel> {
    if !p.parameters.value_preserving() {
        None
    } else {
        let found = match p.operation {
            PredicateOperation::Contains(f) => Some((f@, LiteralKind::Contains)),
            PredicateOperation::StartsWith(f) => Some((f@, LiteralKind::StartsWith)),
            PredicateOperation::EndsWith(f) => Some((f@, LiteralKind::EndsWith)),
            _ => None,
        };
        match found {
            Some((f, kind)) => match text_field(f, "path"@) {
                Some(text) => Some(
                    LiteralModel {
                        text,
                        kind,
                        case_sensitive: p.parameters.case_sensitive == Some(true),
                    },
                ),
                None => None,
            },
            None => None,
        }
    }
}

/// Whether a literal holds of a path.
pub open spec fn literal_holds(l: LiteralModel, path: Seq<char>) -> bool {
    match l.kind {
        LiteralKind::Contains => text::text_contains(path, l.text, l.case_sensitive),
        LiteralKind::StartsWith => text::text_starts_with(path, l.text, l.case_sensitive),
        LiteralKind::EndsWith => text::text_ends_with(path, l.text, l.case_sensitive),
    }
}

/// The path pattern a predicate requires, and whether case matters in it.
pub open spec fn regex_anchor_of(p: Predicate) -> Option<(Seq<char>, bool)> {
    match p.operation {
        PredicateOperation::Matches(f) => if p.parameters.value_preserving() {
            match text_field(f@, "path"@) {
                Some(s) => Some((s, p.parameters.case_sensitive == Some(true))),
                None => None,
            }
        } else {
            None
        },
        _ => None,
    }
}

/// The hash of the JSON body a predicate requires.
pub open spec fn body_anchor_of(p: Predicate) -> Option<u64> {
    match p.operation {
        PredicateOperation::DeepEquals(f) => if safely_indexable(p.parameters)
            && p.parameters.key_case_sensitive != Some(true) {
            match lookup::find_entry(f@, "body"@, true) {
                Some(m) => if m is Object || m is Array {
                    structural_hash::hash_of(m)
                } else {
                    None
                },
                None => None,
            }
        } else {
            None
        },
        _ => None,
    }
}

fn is_value_preserving(p: &PredicateParameters) -> (r: bool)
    ensures
        r == p.value_preserving(),
{
    p.except.as_str().is_empty() && p.selector.is_none()
}

fn is_safely_indexable(p: &PredicateParameters) -> (r: bool)
    ensures
        r == safely_indexable(*p),
{
    is_value_preserving(p) && !p.case_sensitive.unwrap_or(false)
}

fn field_text<'a>(fields: &'a JsonObject, name: &str) -> (r: Option<&'a String>)
    ensures
        (match r {
            Some(s) => text_field(fields@, name@) == Some(s@),
            None => text_field(fields@, name@) is None,
        }),
{
    match fields.get(name) {
        Some(j) => j.as_text(),
        None => None,
    }
}

fn path_anchor(p: &Predicate) -> (r: Option<&String>)
    ensures
        text::optional_ref(r) == path_anchor_of(*p),
{
    match &p.operation {
        PredicateOperation::Equals(f) => if is_safely_indexable(&p.parameters) {
            field_text(f, "path")
        } else {
            None
        },
        _ => None,
    }
}

fn method_anchor(p: &Predicate) -> (r: Option<&String>)
    ensures
        text::optional_ref(r) == method_anchor_of(*p),
{
    match &p.operation {
        PredicateOperation::Equals(f) => if is_safely_indexable(&p.parameters) {
            field_text(f, "method")
        } else {
            None
        },
        _ => None,
    }
}

/// A required path literal.
struct LiteralAnchor<'a> {
    text: &'a String,
    kind: LiteralKind,
    case_sensitive: bool,
}

spec fn literal_view(a: Option<LiteralAnchor<'_>>) -> Option<LiteralModel> {
    match a {
        Some(l) => Some(
            LiteralModel { text: l.text@, kind: l.kind, case_sensitive: l.case_sensitive },
        ),
        None => None,
    }
}

fn literal_anchor(p: &Predicate) -> (r: Option<LiteralAnchor<'_>>)
    ensures
        literal_view(r) == literal_anchor_of(*p),
{
    if !is_value_preserving(&p.parameters) {
        return None;
    }
    let (fields, kind): (&JsonObject, LiteralKind) = match &p.operation {
        PredicateOperation::Contains(f) => (f, LiteralKind::Contains),
        PredicateOperation::StartsWith(f) => (f, LiteralKind::StartsWith),
        PredicateOperation::EndsWith(f) => (f, LiteralKind::EndsWith),
        _ => {
            return None;
        },
    };
    match field_text(fields, "path") {
        Some(t) => Some(
            LiteralAnchor {
                text: t,
                kind,
                case_sensitive: p.parameters.case_sensitive.unwrap_or(false),
            },
        ),
        None => None,
    }
}

fn regex_anchor(p: &Predicate) -> (r: Option<(&String, bool)>)
    ensures
        (match r {
            Some((s, b)) => regex_anchor_of(*p) == Some((s@, b)),
            None => regex_anchor_of(*p) is None,
        }),
{
    match &p.operation {
        PredicateOperation::Matches(f) => if is_value_preserving(&p.parameters) {
            match field_text(f, "path") {
                Some(s) => Some((s, p.parameters.case_sensitive.unwrap_or(false))),
                None => None,
            }
        } else {
            None
        },
        _ => None,
    }
}

fn body_anchor(p: &Predicate) -> (r: Option<u64>)
    ensures
        r == body_anchor_of(*p),
{
    if !is_safely_indexable(&p.parameters) || p.parameters.key_case_sensitive.unwrap_or(false) {
        return None;
    }
    match &p.operation {
        PredicateOperation::DeepEquals(f) => match f.get("body") {
            Some(v) => if v.as_object().is_some() || v.as_array().is_some() {
                structural_hash::structural_hash(v)
            } else {
                None
            },
            None => None,
        },
        _ => None,
    }
}

/// The path a stub requires exactly.
pub open spec fn path_of(ps: Seq<Predicate>) -> Option<Seq<char>> {
    first_some(ps, |p: Predicate| path_anchor_of(p))
}

/// The method a stub requires.
pub open spec fn method_of(ps: Seq<Predicate>) -> Option<Seq<char>> {
    first_some(ps, |p: Predicate| method_anchor_of(p))
}

/// The path literal a stub requires.
pub open spec fn literal_of(ps: Seq<Predicate>) -> Option<LiteralModel> {
    first_some(ps, |p: Predicate| literal_anchor_of(p))
}

/// The path pattern a stub requires.
pub open spec fn regex_of(ps: Seq<Predicate>) -> Option<(Seq<char>, bool)> {
    first_some(ps, |p: Predicate| regex_anchor_of(p))
}

/// The hash of the JSON body a stub requires.
pub open spec fn body_of(ps: Seq<Predicate>) -> Option<u64> {
    first_some(ps, |p: Predicate| body_anchor_of(p))
}

fn classify(ps: &Vec<Predicate>) -> (r: Option<&String>)
    ensures
        text::optional_ref(r) == path_of(ps@),
{
    let mut i: usize = 0;
    proof {
        assert(ps@.skip(0) =~= ps@);
    }
    while i < ps.len()
        invariant
            i <= ps@.len(),
            path_of(ps@) == path_of(ps@.skip(i as int)),
        decreases ps@.len() - i,
    {
        proof {
            assert(ps@.skip(i as int).drop_first() =~= ps@.skip(i + 1));
        }
        if let Some(s) = path_anchor(&ps[i]) {
            return Some(s);
        }
        i += 1;
    }
    None
}

fn classify_method(ps: &Vec<Predicate>) -> (r: Option<&String>)
    ensures
        text::optional_ref(r) == method_of(ps@),
{
    let mut i: usize = 0;
    proof {
        assert(ps@.skip(0) =~= ps@);
    }
    while i < ps.len()
        invariant
            i <= ps@.len(),
            method_of(ps@) == method_of(ps@.skip(i as int)),
        decreases ps@.len() - i,
    {
        proof {
            assert(ps@.skip(i as int).drop_first() =~= ps@.skip(i + 1));
        }
        if let Some(s) = method_anchor(&ps[i]) {
            return Some(s);
        }
        i += 1;
    }
    None
}

fn classify_literal(ps: &Vec<Predicate>) -> (r: Option<LiteralAnchor<'_>>)
    ensures
        literal_view(r) == literal_of(ps@),
{
    let mut i: usize = 0;
    proof {
        assert(ps@.skip(0) =~= ps@);
    }
    while i < ps.len()
        invariant
            i <= ps@.len(),
            literal_of(ps@) == literal_of(ps@.skip(i as int)),
        decreases ps@.len() - i,
    {
        proof {
            assert(ps@.skip(i as int).drop_first() =~= ps@.skip(i + 1));
        }
        if let Some(a) = literal_anchor(&ps[i]) {
            return Some(a);
        }
        i += 1;
    }
    None
}

fn classify_regex(ps: &Vec<Predicate>) -> (r: Option<(&String, bool)>)
    ensures
        (match r {
            Some((s, b)) => regex_of(ps@) == Some((s@, b)),
            None => regex_of(ps@) is None,
        }),
{
    let mut i: usize = 0;
    proof {
        assert(ps@.skip(0) =~= ps@);
    }
    while i < ps.len()
        invariant
            i <= ps@.len(),
            regex_of(ps@) == regex_of(ps@.skip(i as int)),
        decreases ps@.len() - i,
    {
        proof {
            assert(ps@.skip(i as int).drop_first() =~= ps@.skip(i + 1));
        }
        if let Some(a) = regex_anchor(&ps[i]) {
            return Some(a);
        }
        i += 1;
    }
    None
}

#[verifier::spinoff_prover]
#[verifier::rlimit(40)]
fn classify_body(ps: &Vec<Predicate>) -> (r: Option<u64>)
    ensures
        r == body_of(ps@),
{
    let mut i: usize = 0;
    proof {
        assert(ps@.skip(0) =~= ps@);
    }
    while i < ps.len()
        invariant
            i <= ps@.len(),
            body_of(ps@) == body_of(ps@.skip(i as int)),
        decreases ps@.len() - i,
    {
        proof {
            assert(ps@.skip(i as int).drop_first() =~= ps@.skip(i + 1));
        }
        if let Some(h) = body_anchor(&ps[i]) {
            return Some(h);
        }
        i += 1;
    }
    None
}

/// The exact-path dimension: one hash probe per request.
///
/// Only `equals` on `path` is indexed here; the other path relations are the literal dimension's.
pub struct PathDimension {
    /// The folded path each stub requires, where it requires one.
    folded: Vec<Option<String>>,
    /// Stub ids by the hash of their folded path.
    exact: Buckets,
    /// Stubs that require no path.
    always: CandidateBits,
}

impl PathDimension {
    /// The folded path stub `i` requires.
    pub closed spec fn anchor(&self, i: int) -> Option<Seq<char>> {
        text::optional_text(self.folded@[i])
    }
}

impl Dimension for PathDimension {
    closed spec fn space(&self) -> nat {
        self.folded@.len()
    }

    closed spec fn valid(&self) -> bool {
        &&& self.always.wf()
        &&& self.always.space() == self.folded@.len()
        &&& self.always@ == Set::new(
            |i: int| 0 <= i < self.folded@.len() && self.folded@[i] is None,
        )
        &&& forall|i: int|
            0 <= i < self.folded@.len() && (#[trigger] self.folded@[i]) is Some
                ==> self.exact.ids(structural_hash::text_hash(self.folded@[i]->0@)).contains(
                i as usize,
            )
        &&& forall|h: u64, k: int|
            0 <= k < self.exact.ids(h).len() ==> {
                &&& (#[trigger] self.exact.ids(h)[k]) < self.folded@.len()
                &&& self.folded@[self.exact.ids(h)[k] as int] is Some
            }
        &&& forall|h: u64| #[trigger]
            self.exact.hashes().contains(h) ==> self.exact.ids(h).len() > 0
        &&& self.folded@.len() <= usize::MAX
    }

    open spec fn selected(&self, request: RequestKey) -> Set<int> {
        Set::new(
            |i: int|
                0 <= i < self.space() && match self.anchor(i) {
                    Some(t) => t == structural_hash::lowered(request.path),
                    None => true,
                },
        )
    }

    open spec fn indexes(&self, i: int) -> bool {
        self.anchor(i) is Some
    }

    fn select(&self, request: &DimensionRequest<'_>, out: &mut CandidateBits) {
        out.copy_from(&self.always);
        let low: String = structural_hash::lower(request.path);
        let h: u64 = structural_hash::hash_text(low.as_str());
        if let Some(ids) = self.exact.get(h) {
            let mut k: usize = 0;
            while k < ids.len()
                invariant
                    self.valid(),
                    ids@ == self.exact.ids(h),
                    k <= ids@.len(),
                    low@ == structural_hash::lowered(request.path@),
                    out.wf(),
                    out.space() == self.space(),
                    forall|i: int| #[trigger]
                        out@.contains(i) ==> self.selected(request@).contains(i),
                    forall|i: int| self.always@.contains(i) ==> #[trigger] out@.contains(i),
                    forall|j: int|
                        0 <= j < k && self.anchor((#[trigger] ids@[j]) as int) == Some(low@)
                            ==> out@.contains(ids@[j] as int),
                decreases ids@.len() - k,
            {
                let id: usize = ids[k];
                proof {
                    assert(self.exact.ids(h)[k as int] < self.folded@.len());
                }
                if let Some(t) = &self.folded[id] {
                    if text::same_text(t.as_str(), low.as_str()) {
                        out.set(id);
                    }
                }
                k += 1;
            }
        }
        proof {
            assert forall|i: int| self.selected(request@).contains(i) implies out@.contains(i) by {
                if self.folded@[i] is Some {
                    let ids = self.exact.ids(h);
                    assert(ids.contains(i as usize));
                    let j = choose|j: int| 0 <= j < ids.len() && ids[j] == i as usize;
                    assert(self.anchor(ids[j] as int) == Some(low@));
                } else {
                    assert(self.always@.contains(i));
                }
            }
            assert(out@ =~= self.selected(request@));
        }
    }

    fn prunes(&self) -> (r: bool) {
        let r: bool = !self.exact.is_empty();
        proof {
            if r {
                assert(exists|h: u64| self.exact.hashes().contains(h)) by {
                    if forall|h: u64| !self.exact.hashes().contains(h) {
                        assert(self.exact.hashes() =~= Set::<u64>::empty());
                    }
                }
                let h = choose|h: u64| self.exact.hashes().contains(h);
                assert(self.indexes(self.exact.ids(h)[0] as int));
            } else {
                assert forall|q: RequestKey| #[trigger] self.selected(q) == all_ids(
                    self.space(),
                ) by {
                    assert forall|i: int| 0 <= i < self.space() implies self.selected(q).contains(
                        i,
                    ) by {
                        if self.folded@[i] is Some {
                            let t = self.folded@[i]->0@;
                            assert(self.exact.ids(structural_hash::text_hash(t)).contains(
                                i as usize,
                            ));
                        }
                    }
                    assert(self.selected(q) =~= all_ids(self.space()));
                }
            }
        }
        r
    }
}

/// How many method slots there are: seven named methods, and one for every other.
pub const METHOD_SLOTS: usize = 8;

/// The slot of a method name, whatever its case.
pub open spec fn slot_of(method: Seq<char>) -> int {
    if text::text_eq(method, "GET"@, false) {
        0
    } else if text::text_eq(method, "POST"@, false) {
        1
    } else if text::text_eq(method, "PUT"@, false) {
        2
    } else if text::text_eq(method, "DELETE"@, false) {
        3
    } else if text::text_eq(method, "PATCH"@, false) {
        4
    } else if text::text_eq(method, "HEAD"@, false) {
        5
    } else if text::text_eq(method, "OPTIONS"@, false) {
        6
    } else {
        7
    }
}

/// The slot of a method name, whatever its case.
pub fn method_slot(method: &str) -> (r: usize)
    ensures
        r == slot_of(method@),
        r < METHOD_SLOTS,
{
    if text::texts_equal(method, "GET", false) {
        0
    } else if text::texts_equal(method, "POST", false) {
        1
    } else if text::texts_equal(method, "PUT", false) {
        2
    } else if text::texts_equal(method, "DELETE", false) {
        3
    } else if text::texts_equal(method, "PATCH", false) {
        4
    } else if text::texts_equal(method, "HEAD", false) {
        5
    } else if text::texts_equal(method, "OPTIONS", false) {
        6
    } else {
        7
    }
}

/// The method dimension: a stub that requires one method is no candidate for another.
pub struct MethodDimension {
    /// The slot of the method each stub requires, where it requires one.
    wanted: Vec<Option<usize>>,
    /// Stub ids by method slot.
    slots: Vec<Vec<usize>>,
    /// Stubs that require no method.
    always: CandidateBits,
}

impl MethodDimension {
    /// The slot of the method stub `i` requires.
    pub closed spec fn anchor(&self, i: int) -> Option<int> {
        match self.wanted@[i] {
            Some(k) => Some(k as int),
            None => None,
        }
    }
}

impl Dimension for MethodDimension {
    closed spec fn space(&self) -> nat {
        self.wanted@.len()
    }

    closed spec fn valid(&self) -> bool {
        &&& self.always.wf()
        &&& self.always.space() == self.wanted@.len()
        &&& self.always@ == Set::new(
            |i: int| 0 <= i < self.wanted@.len() && self.wanted@[i] is None,
        )
        &&& self.slots@.len() == METHOD_SLOTS
        &&& forall|i: int|
            0 <= i < self.wanted@.len() && (#[trigger] self.wanted@[i]) is Some ==> {
                &&& self.wanted@[i]->0 < METHOD_SLOTS
                &&& self.slots@[self.wanted@[i]->0 as int]@.contains(i as usize)
            }
        &&& forall|k: int, j: int|
            0 <= k < METHOD_SLOTS && 0 <= j < self.slots@[k]@.len() ==> {
                &&& (#[trigger] self.slots@[k]@[j]) < self.wanted@.len()
                &&& self.wanted@[self.slots@[k]@[j] as int] == Some(k as usize)
            }
        &&& self.wanted@.len() <= usize::MAX
    }

    open spec fn selected(&self, request: RequestKey) -> Set<int> {
        Set::new(
            |i: int|
                0 <= i < self.space() && match self.anchor(i) {
                    Some(k) => k == slot_of(request.method),
                    None => true,
                },
        )
    }

    open spec fn indexes(&self, i: int) -> bool {
        self.anchor(i) is Some
    }

    fn select(&self, request: &DimensionRequest<'_>, out: &mut CandidateBits) {
        out.copy_from(&self.always);
        let slot: usize = method_slot(request.method);
        let ids: &Vec<usize> = &self.slots[slot];
        let mut k: usize = 0;
        while k < ids.len()
            invariant
                self.valid(),
                slot < METHOD_SLOTS,
                slot == slot_of(request.method@),
                *ids == self.slots@[slot as int],
                k <= ids@.len(),
                out.wf(),
                out.space() == self.space(),
                forall|i: int| #[trigger]
                    out@.contains(i) ==> self.selected(request@).contains(i),
                forall|i: int| self.always@.contains(i) ==> #[trigger] out@.contains(i),
                forall|j: int| 0 <= j < k ==> out@.contains((#[trigger] ids@[j]) as int),
            decreases ids@.len() - k,
        {
            proof {
                assert(self.slots@[slot as int]@[k as int] < self.wanted@.len());
            }
            out.set(ids[k]);
            k += 1;
        }
        proof {
            assert forall|i: int| self.selected(request@).contains(i) implies out@.contains(i) by {
                if self.wanted@[i] is Some {
                    assert(ids@.contains(i as usize));
                    let j = choose|j: int| 0 <= j < ids@.len() && ids@[j] == i as usize;
                    assert(out@.contains(ids@[j] as int));
                } else {
                    assert(self.always@.contains(i));
                }
            }
            assert(out@ =~= self.selected(request@));
        }
    }

    fn prunes(&self) -> (r: bool) {
        let mut k: usize = 0;
        while k < METHOD_SLOTS
            invariant
                self.valid(),
                k <= METHOD_SLOTS,
                forall|j: int| 0 <= j < k ==> (#[trigger] self.slots@[j])@.len() == 0,
            decreases METHOD_SLOTS - k,
        {
            if self.slots[k].len() > 0 {
                proof {
                    assert(self.slots@[k as int]@[0] < self.wanted@.len());
                    assert(self.indexes(self.slots@[k as int]@[0] as int));
                }
                return true;
            }
            k += 1;
        }
        proof {
            assert forall|q: RequestKey| #[trigger] self.selected(q) == all_ids(self.space()) by {
                assert forall|i: int| 0 <= i < self.space() implies self.selected(q).contains(
                    i,
                ) by {
                    if self.wanted@[i] is Some {
                        let s = self.wanted@[i]->0 as int;
                        assert(self.slots@[s]@.contains(i as usize));
                        assert(self.slots@[s]@.len() == 0);
                    }
                }
                assert(self.selected(q) =~= all_ids(self.space()));
            }
        }
        false
    }
}

/// The deep-equal body dimension: one hash probe per request with a JSON body.
pub struct BodyHashDimension {
    /// The hash of the body each stub requires, where it requires one.
    wanted: Vec<Option<u64>>,
    /// Stub ids by the hash of the body they require.
    by_hash: Buckets,
    /// Stubs that require no JSON body.
    always: CandidateBits,
}

impl BodyHashDimension {
    /// The hash of the body stub `i` requires.
    pub closed spec fn anchor(&self, i: int) -> Option<u64> {
        self.wanted@[i]
    }
}

impl Dimension for BodyHashDimension {
    closed spec fn space(&self) -> nat {
        self.wanted@.len()
    }

    closed spec fn valid(&self) -> bool {
        &&& self.always.wf()
        &&& self.always.space() == self.wanted@.len()
        &&& self.always@ == Set::new(
            |i: int| 0 <= i < self.wanted@.len() && self.wanted@[i] is None,
        )
        &&& forall|i: int|
            0 <= i < self.wanted@.len() && (#[trigger] self.wanted@[i]) is Some
                ==> self.by_hash.ids(self.wanted@[i]->0).contains(i as usize)
        &&& forall|h: u64, k: int|
            0 <= k < self.by_hash.ids(h).len() ==> {
                &&& (#[trigger] self.by_hash.ids(h)[k]) < self.wanted@.len()
                &&& self.wanted@[self.by_hash.ids(h)[k] as int] == Some(h)
            }
        &&& forall|h: u64| #[trigger]
            self.by_hash.hashes().contains(h) ==> self.by_hash.ids(h).len() > 0
        &&& self.wanted@.len() <= usize::MAX
    }

    /// A body that is not JSON rules out every stub that requires a JSON body. A body without a
    /// hash rules out none.
    open spec fn selected(&self, request: RequestKey) -> Set<int> {
        Set::new(
            |i: int|
                0 <= i < self.space() && match self.anchor(i) {
                    Some(h) => match request.body {
                        Some(b) => match structural_hash::hash_of(b) {
                            Some(k) => k == h,
                            None => true,
                        },
                        None => false,
                    },
                    None => true,
                },
        )
    }

    open spec fn indexes(&self, i: int) -> bool {
        self.anchor(i) is Some
    }

    fn select(&self, request: &DimensionRequest<'_>, out: &mut CandidateBits) {
        match request.body {
            None => {
                out.copy_from(&self.always);
                proof {
                    assert(out@ =~= self.selected(request@));
                }
            },
            Some(body) => match structural_hash::structural_hash(body) {
                None => {
                    let full: CandidateBits = CandidateBits::all(self.wanted.len());
                    out.copy_from(&full);
                    proof {
                        assert(out@ =~= self.selected(request@));
                    }
                },
                Some(h) => {
                    out.copy_from(&self.always);
                    if let Some(ids) = self.by_hash.get(h) {
                        let mut k: usize = 0;
                        while k < ids.len()
                            invariant
                                self.valid(),
                                request.body == Some(body),
                                structural_hash::hash_of(body.model()) == Some(h),
                                ids@ == self.by_hash.ids(h),
                                k <= ids@.len(),
                                out.wf(),
                                out.space() == self.space(),
                                forall|i: int| #[trigger]
                                    out@.contains(i) ==> self.selected(request@).contains(i),
                                forall|i: int|
                                    self.always@.contains(i) ==> #[trigger] out@.contains(i),
                                forall|j: int|
                                    0 <= j < k ==> out@.contains((#[trigger] ids@[j]) as int),
                            decreases ids@.len() - k,
                        {
                            proof {
                                assert(self.by_hash.ids(h)[k as int] < self.wanted@.len());
                            }
                            out.set(ids[k]);
                            k += 1;
                        }
                    }
                    proof {
                        assert forall|i: int| self.selected(request@).contains(
                            i,
                        ) implies out@.contains(i) by {
                            if self.wanted@[i] is Some {
                                let ids = self.by_hash.ids(h);
                                assert(ids.contains(i as usize));
                                let j = choose|j: int| 0 <= j < ids.len() && ids[j] == i as usize;
                                assert(out@.contains(ids[j] as int));
                            } else {
                                assert(self.always@.contains(i));
                            }
                        }
                        assert(out@ =~= self.selected(request@));
                    }
                },
            },
        }
    }

    fn prunes(&self) -> (r: bool) {
        let r: bool = !self.by_hash.is_empty();
        proof {
            if r {
                assert(exists|h: u64| self.by_hash.hashes().contains(h)) by {
                    if forall|h: u64| !self.by_hash.hashes().contains(h) {
                        assert(self.by_hash.hashes() =~= Set::<u64>::empty());
                    }
                }
                let h = choose|h: u64| self.by_hash.hashes().contains(h);
                assert(self.indexes(self.by_hash.ids(h)[0] as int));
            } else {
                assert forall|q: RequestKey| #[trigger] self.selected(q) == all_ids(
                    self.space(),
                ) by {
                    assert forall|i: int| 0 <= i < self.space() implies self.selected(q).contains(
                        i,
                    ) by {
                        if self.wanted@[i] is Some {
                            assert(self.by_hash.ids(self.wanted@[i]->0).contains(i as usize));
                        }
                    }
                    assert(self.selected(q) =~= all_ids(self.space()));
                }
            }
        }
        r
    }
}

/// `aho_corasick::AhoCorasick`, opaque: contracts speak of it through [`automaton_literals`].
#[verifier::external_type_specification]
#[verifier::external_body]
pub struct ExAhoCorasick(aho_corasick::AhoCorasick);

/// `regex_automata::meta::Regex`, opaque: contracts speak of it through [`automaton_patterns`].
#[verifier::external_type_specification]
#[verifier::external_body]
pub struct ExMetaRegex(regex_automata::meta::Regex);

/// The literals an automaton was built from, in order, and whether it folds ASCII case. `None` for
/// an automaton that cannot report overlapping matches.
pub uninterp spec fn automaton_literals(a: aho_corasick::AhoCorasick) -> Option<
    (Seq<Seq<char>>, bool),
>;

/// The patterns an automaton was built from, in order, and whether it ignores case. `None` for an
/// automaton that does not report every pattern that matches.
pub uninterp spec fn automaton_patterns(a: regex_automata::meta::Regex) -> Option<
    (Seq<Seq<char>>, bool),
>;

/// Whether `aho_corasick` builds an automaton over the literals.
pub uninterp spec fn literals_build(literals: Seq<Seq<char>>, folds: bool) -> bool;

/// Whether `regex_automata` builds an automaton over the patterns within the limits. Sizes are
/// counted in the words of the machine that the library is built for.
pub uninterp spec fn patterns_build(
    patterns: Seq<Seq<char>>,
    folds: bool,
    nfa_size_limit: usize,
    dfa_size_limit: usize,
    cache_capacity: usize,
) -> bool;

/// Whether a literal stands at byte `from` of a text, with ASCII case folded or not.
pub open spec fn literal_at(
    literal: Seq<char>,
    folds: bool,
    path: Seq<char>,
    from: int,
) -> bool {
    text::stands_at(text::comparable(path, !folds), text::comparable(literal, !folds), from)
}

/// The places name exactly where the non-empty literals stand, as the literal's number and the
/// place's start and end.
pub open spec fn places_are(
    places: Seq<(usize, usize, usize)>,
    literals: Seq<Seq<char>>,
    folds: bool,
    path: Seq<char>,
) -> bool {
    &&& forall|k: int|
        0 <= k < places.len() ==> {
            let (p, from, to) = #[trigger] places[k];
            p < literals.len() && (literals[p as int].len() > 0 ==> literal_at(
                literals[p as int],
                folds,
                path,
                from as int,
            ) && to == from + text::comparable(literals[p as int], !folds).len())
        }
    &&& forall|p: int, from: int|
        0 <= p < literals.len() && literals[p].len() > 0 && #[trigger] literal_at(
            literals[p],
            folds,
            path,
            from,
        ) ==> exists|k: int|
            0 <= k < places.len() && (#[trigger] places[k]).0 == p && places[k].1 == from
}

/// The numbers name exactly the patterns that match somewhere.
pub open spec fn numbers_are(
    numbers: Seq<usize>,
    patterns: Seq<Seq<char>>,
    folds: bool,
    path: Seq<char>,
) -> bool {
    &&& forall|k: int|
        0 <= k < numbers.len() ==> (#[trigger] numbers[k]) < patterns.len()
            && regex_cache::regex_found(patterns[numbers[k] as int], folds, path)
    &&& forall|p: int|
        0 <= p < patterns.len() && regex_cache::regex_found(#[trigger] patterns[p], folds, path)
            ==> numbers.contains(p as usize)
}

/// Builds a standard-semantics automaton over the literals with `aho_corasick`'s builder. Whether
/// the build succeeds depends on the literals and the fold alone, through the automaton's size.
#[verifier::external_body]
fn build_literals(literals: &Vec<String>, fold_case: bool) -> (r: Option<AhoCorasick>)
    ensures
        r is Some == literals_build(record::texts(literals@), fold_case),
        r is Some ==> automaton_literals(r->0) == Some((record::texts(literals@), fold_case)),
{
    AhoCorasick::builder()
        .match_kind(aho_corasick::MatchKind::Standard)
        .ascii_case_insensitive(fold_case)
        .build(literals)
        .ok()
}

/// `aho_corasick::AhoCorasick::find_overlapping_iter`: every place in the haystack's bytes where a
/// literal stands, as the literal's number and the start and end of the place. Said of literals
/// that are not empty.
#[verifier::external_body]
fn literal_hits(a: &AhoCorasick, haystack: &str) -> (hits: Vec<(usize, usize, usize)>)
    requires
        automaton_literals(*a) is Some,
    ensures
        places_are(
            hits@,
            (automaton_literals(*a)->0).0,
            (automaton_literals(*a)->0).1,
            haystack@,
        ),
{
    a.find_overlapping_iter(haystack)
        .map(|m| (m.pattern().as_usize(), m.start(), m.end()))
        .collect()
}

/// Builds one automaton over the patterns with `regex_automata::meta`'s builder, reporting every
/// match, within the limits given. Whether the build succeeds depends on the patterns, the fold and
/// the limits alone, through the patterns' syntax and the automaton's size.
#[verifier::external_body]
fn build_patterns(
    patterns: &Vec<String>,
    case_insensitive: bool,
    nfa_size_limit: usize,
    dfa_size_limit: usize,
    cache_capacity: usize,
) -> (r: Option<meta::Regex>)
    ensures
        r is Some == patterns_build(
            record::texts(patterns@),
            case_insensitive,
            nfa_size_limit,
            dfa_size_limit,
            cache_capacity,
        ),
        r is Some ==> automaton_patterns(r->0) == Some(
            (record::texts(patterns@), case_insensitive),
        ),
{
    let config = meta::Config::new()
        .match_kind(regex_automata::MatchKind::All)
        .nfa_size_limit(Some(nfa_size_limit))
        .dfa_size_limit(Some(dfa_size_limit))
        .hybrid_cache_capacity(cache_capacity);
    meta::Regex::builder()
        .syntax(regex_automata::util::syntax::Config::new().case_insensitive(case_insensitive))
        .configure(config)
        .build_many(patterns)
        .ok()
}

/// `regex_automata::meta::Regex::which_overlapping_matches`: the numbers of the patterns that match
/// somewhere in the haystack. Each pattern answers as it does alone: `regex::Regex` runs the same
/// engine on the same syntax.
#[verifier::external_body]
fn pattern_hits(a: &meta::Regex, haystack: &str) -> (hits: Vec<usize>)
    requires
        automaton_patterns(*a) is Some,
    ensures
        numbers_are(
            hits@,
            (automaton_patterns(*a)->0).0,
            (automaton_patterns(*a)->0).1,
            haystack@,
        ),
{
    let mut set = regex_automata::PatternSet::new(a.pattern_len());
    a.which_overlapping_matches(&regex_automata::Input::new(haystack), &mut set);
    set.iter().map(|p| p.as_usize()).collect()
}

/// One case class's literal automaton, with the stub and the relation each literal speaks for.
pub struct LiteralSet {
    automaton: AhoCorasick,
    entries: Vec<(usize, LiteralKind)>,
}

impl LiteralSet {
    /// The literal that stands at `p`, and the stub it speaks for.
    pub closed spec fn entry(&self, p: int) -> (int, LiteralModel) {
        let (literals, folds) = automaton_literals(self.automaton)->0;
        (
            self.entries@[p].0 as int,
            LiteralModel {
                text: literals[p],
                kind: self.entries@[p].1,
                case_sensitive: !folds,
            },
        )
    }

    /// How many literals there are.
    pub closed spec fn count(&self) -> nat {
        self.entries@.len()
    }

    /// There is a literal, and every literal is non-empty and speaks for a stub below `n`.
    pub closed spec fn fits(&self, n: nat) -> bool {
        &&& self.entries@.len() > 0
        &&& automaton_literals(self.automaton) is Some
        &&& (automaton_literals(self.automaton)->0).0.len() == self.entries@.len()
        &&& forall|p: int|
            0 <= p < self.entries@.len() ==> (#[trigger] self.entries@[p]).0 < n && (
            automaton_literals(self.automaton)->0).0[p].len() > 0
    }

    /// Whether some literal that speaks for stub `i` holds of the path.
    pub open spec fn hits(&self, i: int, path: Seq<char>) -> bool {
        exists|p: int|
            0 <= p < self.count() && (#[trigger] self.entry(p)).0 == i && literal_holds(
                self.entry(p).1,
                path,
            )
    }

    /// Adds every stub whose literal holds of the path, in one pass over it.
    fn mark(&self, path: &str, out: &mut CandidateBits)
        requires
            self.fits(old(out).space()),
            old(out).wf(),
        ensures
            final(out).wf(),
            final(out).space() == old(out).space(),
            forall|i: int| #[trigger]
                final(out)@.contains(i) <==> old(out)@.contains(i) || self.hits(i, path@),
    {
        let ghost n = out.space();
        let ghost before = out@;
        let ghost literals = (automaton_literals(self.automaton)->0).0;
        let ghost folds = (automaton_literals(self.automaton)->0).1;
        let found: Vec<(usize, usize, usize)> = literal_hits(&self.automaton, path);
        let mut k: usize = 0;
        while k < found.len()
            invariant
                self.fits(n),
                out.wf(),
                out.space() == n,
                k <= found@.len(),
                automaton_literals(self.automaton) == Some((literals, folds)),
                places_are(found@, literals, folds, path@),
                forall|i: int| before.contains(i) ==> #[trigger] out@.contains(i),
                forall|i: int| #[trigger]
                    out@.contains(i) ==> before.contains(i) || self.hits(i, path@),
                forall|j: int|
                    0 <= j < k ==> {
                        let (p, from, to) = #[trigger] found@[j];
                        let kind = self.entries@[p as int].1;
                        (kind is Contains || (kind is StartsWith && from == 0) || (kind is EndsWith
                            && to == text::comparable(path@, !folds).len())) ==> out@.contains(
                            self.entries@[p as int].0 as int,
                        )
                    },
            decreases found@.len() - k,
        {
            let (p, from, to) = found[k];
            let (id, kind) = self.entries[p];
            proof {
                assert(found@[k as int] == (p, from, to));
                assert(self.entries@[p as int].0 < n);
                assert(text::comparable(path@, !folds).len()
                    == vstd::utf8::encode_utf8(path@).len());
            }
            let hit: bool = match kind {
                LiteralKind::Contains => true,
                LiteralKind::StartsWith => from == 0,
                LiteralKind::EndsWith => to == path.as_bytes().len(),
            };
            if hit {
                proof {
                    let h = text::comparable(path@, !folds);
                    let l = text::comparable(literals[p as int], !folds);
                    assert(text::stands_at(h, l, from as int));
                    assert(self.entry(p as int).0 == id as int);
                    assert(self.entry(p as int).1.kind == kind);
                    assert(literal_holds(self.entry(p as int).1, path@));
                    assert(self.hits(id as int, path@));
                }
                out.set(id);
            }
            k += 1;
        }
        proof {
            assert forall|i: int| self.hits(i, path@) implies out@.contains(i) by {
                let p = choose|p: int|
                    0 <= p < self.count() && (#[trigger] self.entry(p)).0 == i && literal_holds(
                        self.entry(p).1,
                        path@,
                    );
                assert(self.entries@[p].0 < n);
                let h = text::comparable(path@, !folds);
                let l = text::comparable(literals[p], !folds);
                let kind = self.entries@[p].1;
                let from = if kind is Contains {
                    choose|at: int| #[trigger] text::stands_at(h, l, at)
                } else if kind is StartsWith {
                    0
                } else {
                    h.len() - l.len()
                };
                assert(literal_at(literals[p], folds, path@, from));
                let j = choose|j: int|
                    0 <= j < found@.len() && (#[trigger] found@[j]).0 == p && found@[j].1 == from;
                assert(found@[j].0 == p);
                assert(literals[p].len() > 0);
            }
        }
    }
}

/// The texts of literals, in order.
pub open spec fn literal_texts(entries: Seq<(int, LiteralModel)>) -> Seq<Seq<char>> {
    entries.map_values(|e: (int, LiteralModel)| e.1.text)
}

/// Entries of one case class, each a stub and the literal it requires.
spec fn literal_models(
    entries: Seq<(usize, String, LiteralKind)>,
    case_sensitive: bool,
) -> Seq<(int, LiteralModel)> {
    entries.map_values(
        |e: (usize, String, LiteralKind)|
            (e.0 as int, LiteralModel { text: e.1@, kind: e.2, case_sensitive }),
    )
}

/// The set holds exactly these literals, in order.
pub open spec fn literals_are(set: LiteralSet, entries: Seq<(int, LiteralModel)>) -> bool {
    &&& set.count() == entries.len()
    &&& forall|p: int| 0 <= p < entries.len() ==> #[trigger] set.entry(p) == entries[p]
}

/// Builds one case class's automaton. Where the build fails every stub of the class falls back to
/// full evaluation.
fn build_literal_class(entries: Vec<(usize, String, LiteralKind)>, fold_case: bool, n: usize) -> (r:
    (Option<LiteralSet>, Vec<usize>))
    requires
        forall|k: int|
            0 <= k < entries@.len() ==> (#[trigger] entries@[k]).0 < n && entries@[k].1@.len() > 0,
    ensures
        r.0 is Some == (entries@.len() > 0 && literals_build(
            literal_texts(literal_models(entries@, !fold_case)),
            fold_case,
        )),
        r.0 is Some ==> r.0->0.fits(n as nat) && r.1@.len() == 0 && literals_are(
            r.0->0,
            literal_models(entries@, !fold_case),
        ),
        r.0 is None ==> r.1@.len() == entries@.len() && forall|k: int|
            0 <= k < entries@.len() ==> r.1@[k] == (#[trigger] entries@[k]).0,
        forall|k: int| 0 <= k < r.1@.len() ==> (#[trigger] r.1@[k]) < n,
{
    if entries.len() == 0 {
        return (None, Vec::new());
    }
    let mut literals: Vec<String> = Vec::new();
    let mut speaks: Vec<(usize, LiteralKind)> = Vec::new();
    let mut ids: Vec<usize> = Vec::new();
    let mut k: usize = 0;
    while k < entries.len()
        invariant
            k <= entries@.len(),
            literals@.len() == k,
            speaks@.len() == k,
            ids@.len() == k,
            forall|j: int|
                0 <= j < k ==> (#[trigger] literals@[j])@ == entries@[j].1@ && speaks@[j] == (
                    entries@[j].0,
                    entries@[j].2,
                ) && ids@[j] == entries@[j].0,
        decreases entries@.len() - k,
    {
        let e = &entries[k];
        let literal: String = e.1.as_str().to_owned();
        proof {
            assert(literal@ == entries@[k as int].1@);
        }
        literals.push(literal);
        speaks.push((e.0, e.2));
        ids.push(e.0);
        k += 1;
    }
    proof {
        assert(record::texts(literals@) =~= literal_texts(literal_models(entries@, !fold_case)));
    }
    match build_literals(&literals, fold_case) {
        Some(automaton) => {
            let set = LiteralSet { automaton, entries: speaks };
            proof {
                let lits = (automaton_literals(set.automaton)->0).0;
                assert forall|p: int| 0 <= p < set.entries@.len() implies (
                #[trigger] set.entries@[p]).0 < n && lits[p].len() > 0 by {
                    assert(literals@[p]@ == entries@[p].1@);
                    assert(entries@[p].0 < n);
                }
                let models = literal_models(entries@, !fold_case);
                assert forall|p: int| 0 <= p < models.len() implies #[trigger] set.entry(p)
                    == models[p] by {
                    assert(literals@[p]@ == entries@[p].1@);
                }
            }
            (Some(set), Vec::new())
        },
        None => {
            proof {
                assert forall|j: int| 0 <= j < entries@.len() implies ids@[j] == (
                #[trigger] entries@[j]).0 by {
                    assert(literals@[j]@ == entries@[j].1@);
                }
                assert forall|j: int| 0 <= j < ids@.len() implies (#[trigger] ids@[j]) < n by {
                    assert(literals@[j]@ == entries@[j].1@);
                    assert(entries@[j].0 < n);
                }
            }
            (None, ids)
        },
    }
}

/// The literal dimension: `contains`, `startsWith` and `endsWith` on the path, one automaton per
/// case class. Where a match stands tells which relation it proves.
pub struct LiteralDimension {
    insensitive: Option<LiteralSet>,
    sensitive: Option<LiteralSet>,
    /// Stubs without an indexed literal.
    always: CandidateBits,
}

impl LiteralDimension {
    /// The stubs without an indexed literal.
    pub closed spec fn unindexed(&self) -> Set<int> {
        self.always@
    }

    /// A case class's automaton.
    pub closed spec fn class(&self, case_sensitive: bool) -> Option<LiteralSet> {
        if case_sensitive {
            self.sensitive
        } else {
            self.insensitive
        }
    }
}

/// Whether an optional literal set hits.
pub open spec fn set_hits(s: Option<LiteralSet>, i: int, path: Seq<char>) -> bool {
    s is Some && s->0.hits(i, path)
}

/// Whether an optional literal set has a literal that speaks for stub `i`.
pub open spec fn set_indexes(s: Option<LiteralSet>, i: int) -> bool {
    s is Some && exists|p: int| 0 <= p < s->0.count() && (#[trigger] s->0.entry(p)).0 == i
}

impl Dimension for LiteralDimension {
    closed spec fn space(&self) -> nat {
        self.always.space()
    }

    closed spec fn valid(&self) -> bool {
        &&& self.always.wf()
        &&& self.insensitive is Some ==> self.insensitive->0.fits(self.always.space())
        &&& self.sensitive is Some ==> self.sensitive->0.fits(self.always.space())
        &&& self.insensitive is None && self.sensitive is None ==> self.always@ == all_ids(
            self.always.space(),
        )
    }

    open spec fn selected(&self, request: RequestKey) -> Set<int> {
        Set::new(
            |i: int|
                0 <= i < self.space() && (self.unindexed().contains(i) || set_hits(
                    self.class(false),
                    i,
                    request.path,
                ) || set_hits(self.class(true), i, request.path)),
        )
    }

    open spec fn indexes(&self, i: int) -> bool {
        set_indexes(self.class(false), i) || set_indexes(self.class(true), i)
    }

    fn select(&self, request: &DimensionRequest<'_>, out: &mut CandidateBits) {
        out.copy_from(&self.always);
        if let Some(s) = &self.insensitive {
            s.mark(request.path, out);
        }
        if let Some(s) = &self.sensitive {
            s.mark(request.path, out);
        }
        proof {
            out.lemma_members_in_space();
            assert(out@ =~= self.selected(request@));
        }
    }

    fn prunes(&self) -> (r: bool) {
        let r: bool = self.insensitive.is_some() || self.sensitive.is_some();
        proof {
            if r {
                let s = self.class(self.insensitive is None)->0;
                assert(s.entries@[0].0 < self.space());
                assert(s.entry(0).0 == s.entries@[0].0);
                assert(self.indexes(s.entry(0).0));
            } else {
                assert forall|q: RequestKey| #[trigger] self.selected(q) == all_ids(
                    self.space(),
                ) by {
                    assert(self.selected(q) =~= all_ids(self.space()));
                }
            }
        }
        r
    }
}

/// Ceiling on the automaton a multi-pattern build may occupy.
pub const NFA_SIZE_LIMIT: usize = 10485760;

/// Budget of a fully built automaton.
pub const DFA_SIZE_LIMIT: usize = 33554432;

/// Budget of a lazily built automaton's cache.
pub const HYBRID_CACHE_CAPACITY: usize = 16777216;

/// One multi-pattern automaton, with the stub each pattern speaks for.
pub struct MultiRegex {
    automaton: meta::Regex,
    pattern_stubs: Vec<usize>,
}

impl MultiRegex {
    /// The pattern that stands at `p`, whether case matters in it, and the stub it speaks for.
    pub closed spec fn entry(&self, p: int) -> (int, Seq<char>, bool) {
        let (patterns, folds) = automaton_patterns(self.automaton)->0;
        (self.pattern_stubs@[p] as int, patterns[p], !folds)
    }

    /// How many patterns there are.
    pub closed spec fn count(&self) -> nat {
        self.pattern_stubs@.len()
    }

    /// There is a pattern, and every pattern speaks for a stub below `n`.
    pub closed spec fn fits(&self, n: nat) -> bool {
        &&& self.pattern_stubs@.len() > 0
        &&& automaton_patterns(self.automaton) is Some
        &&& (automaton_patterns(self.automaton)->0).0.len() == self.pattern_stubs@.len()
        &&& forall|p: int|
            0 <= p < self.pattern_stubs@.len() ==> (#[trigger] self.pattern_stubs@[p]) < n
    }

    /// Whether some pattern that speaks for stub `i` matches the path.
    pub open spec fn hits(&self, i: int, path: Seq<char>) -> bool {
        exists|p: int|
            0 <= p < self.count() && (#[trigger] self.entry(p)).0 == i && regex_cache::regex_found(
                self.entry(p).1,
                !self.entry(p).2,
                path,
            )
    }

    /// Adds every stub whose pattern matches the path, in one pass over it.
    fn mark(&self, path: &str, out: &mut CandidateBits)
        requires
            self.fits(old(out).space()),
            old(out).wf(),
        ensures
            final(out).wf(),
            final(out).space() == old(out).space(),
            forall|i: int| #[trigger]
                final(out)@.contains(i) <==> old(out)@.contains(i) || self.hits(i, path@),
    {
        let ghost n = out.space();
        let ghost before = out@;
        let ghost patterns = (automaton_patterns(self.automaton)->0).0;
        let ghost folds = (automaton_patterns(self.automaton)->0).1;
        let found: Vec<usize> = pattern_hits(&self.automaton, path);
        let mut k: usize = 0;
        while k < found.len()
            invariant
                self.fits(n),
                out.wf(),
                out.space() == n,
                k <= found@.len(),
                automaton_patterns(self.automaton) == Some((patterns, folds)),
                numbers_are(found@, patterns, folds, path@),
                forall|i: int| before.contains(i) ==> #[trigger] out@.contains(i),
                forall|i: int| #[trigger]
                    out@.contains(i) ==> before.contains(i) || self.hits(i, path@),
                forall|j: int|
                    0 <= j < k ==> out@.contains(
                        self.pattern_stubs@[(#[trigger] found@[j]) as int] as int,
                    ),
            decreases found@.len() - k,
        {
            let p: usize = found[k];
            let id: usize = self.pattern_stubs[p];
            proof {
                assert(self.entry(p as int).0 == id as int);
                assert(self.hits(id as int, path@));
            }
            out.set(id);
            k += 1;
        }
        proof {
            assert forall|i: int| self.hits(i, path@) implies out@.contains(i) by {
                let p = choose|p: int|
                    0 <= p < self.count() && (#[trigger] self.entry(p)).0 == i
                        && regex_cache::regex_found(self.entry(p).1, !self.entry(p).2, path@);
                assert(self.pattern_stubs.len() == self.pattern_stubs@.len());
                assert(regex_cache::regex_found(patterns[p], folds, path@));
                assert(found@.contains(p as usize));
                let j = choose|j: int| 0 <= j < found@.len() && found@[j] == p as usize;
                assert(out@.contains(self.pattern_stubs@[found@[j] as int] as int));
            }
        }
    }
}

/// The most bytes of a pattern that a notice shows.
pub const PREVIEW_BYTES: usize = 80;

/// A pattern as a notice shows it: whole where it is short, else cut at a character boundary, with
/// its full length behind it.
pub open spec fn preview_of(p: Seq<char>) -> Seq<char> {
    let total = vstd::utf8::encode_utf8(p).len();
    if total <= PREVIEW_BYTES {
        p
    } else {
        longest_within(p, PREVIEW_BYTES as int) + "\u{2026} ("@ + text::decimal(total)
            + " bytes total)"@
    }
}

/// The longest prefix whose UTF-8 form has at most `limit` bytes.
pub open spec fn longest_within(p: Seq<char>, limit: int) -> Seq<char>
    decreases p.len(),
{
    if vstd::utf8::encode_utf8(p).len() <= limit || p.len() == 0 {
        p
    } else {
        longest_within(p.drop_last(), limit)
    }
}

/// A pattern as a notice shows it.
pub fn pattern_preview(p: &str) -> (r: String)
    ensures
        r@ == preview_of(p@),
{
    let total: usize = p.as_bytes().len();
    if total <= PREVIEW_BYTES {
        return p.to_owned();
    }
    let chars: Vec<char> = text::chars_of(p);
    let mut cut: usize = chars.len();
    proof {
        assert(p@.take(p@.len() as int) =~= p@);
    }
    loop
        invariant
            chars@ == p@,
            cut <= chars@.len(),
            longest_within(p@, PREVIEW_BYTES as int) == longest_within(
                p@.take(cut as int),
                PREVIEW_BYTES as int,
            ),
        ensures
            cut <= chars@.len(),
            longest_within(p@, PREVIEW_BYTES as int) == p@.take(cut as int),
        decreases cut,
    {
        let head: String = text::text_of(&chars, 0, cut);
        proof {
            assert(p@.subrange(0, cut as int) =~= p@.take(cut as int));
        }
        if cut == 0 || head.as_str().as_bytes().len() <= PREVIEW_BYTES {
            break ;
        }
        proof {
            assert(p@.take(cut as int).drop_last() =~= p@.take(cut - 1));
        }
        cut -= 1;
    }
    let mut out: String = text::text_of(&chars, 0, cut);
    proof {
        assert(p@.subrange(0, cut as int) =~= p@.take(cut as int));
    }
    out.append("\u{2026} (");
    out.append(text::decimal_text(total as u64).as_str());
    out.append(" bytes total)");
    out
}

/// What became of one case class's patterns.
struct CaseClass {
    /// The automaton over the patterns that could be built.
    set: Option<MultiRegex>,
    /// The stubs no automaton speaks for.
    fallback: Vec<usize>,
    /// The stubs whose own pattern was rejected, with the pattern as a notice shows it.
    rejected: Vec<(usize, String)>,
}

/// Entries of one case class, each a stub and the pattern it requires.
pub open spec fn entry_models(entries: Seq<(usize, String)>) -> Seq<(int, Seq<char>)> {
    entries.map_values(|e: (usize, String)| (e.0 as int, e.1@))
}

/// The patterns of entries, in order.
pub open spec fn patterns_of(entries: Seq<(int, Seq<char>)>) -> Seq<Seq<char>> {
    entries.map_values(|e: (int, Seq<char>)| e.1)
}

/// The automaton holds exactly these patterns, in order.
pub open spec fn patterns_are(
    set: MultiRegex,
    entries: Seq<(int, Seq<char>)>,
    case_sensitive: bool,
) -> bool {
    &&& set.count() == entries.len()
    &&& forall|p: int|
        0 <= p < entries.len() ==> #[trigger] set.entry(p) == (
            entries[p].0,
            entries[p].1,
            case_sensitive,
        )
}

/// Whether one automaton over these patterns can be built within the limits.
pub open spec fn buildable(patterns: Seq<Seq<char>>, folds: bool) -> bool {
    patterns_build(patterns, folds, NFA_SIZE_LIMIT, DFA_SIZE_LIMIT, HYBRID_CACHE_CAPACITY)
}

/// The entries whose pattern can be built by itself.
pub open spec fn built_alone(entries: Seq<(int, Seq<char>)>, folds: bool) -> Seq<(int, Seq<char>)>
    decreases entries.len(),
{
    if entries.len() == 0 {
        Seq::empty()
    } else if buildable(seq![entries.last().1], folds) {
        built_alone(entries.drop_last(), folds).push(entries.last())
    } else {
        built_alone(entries.drop_last(), folds)
    }
}

/// The entries whose pattern is rejected by itself.
pub open spec fn rejected_alone(
    entries: Seq<(int, Seq<char>)>,
    folds: bool,
) -> Seq<(int, Seq<char>)>
    decreases entries.len(),
{
    if entries.len() == 0 {
        Seq::empty()
    } else if buildable(seq![entries.last().1], folds) {
        rejected_alone(entries.drop_last(), folds)
    } else {
        rejected_alone(entries.drop_last(), folds).push(entries.last())
    }
}

/// The entries that an automaton is built over: all of them where that can be done. Where it cannot,
/// and some pattern is rejected by itself, those that can each be built by themselves, where they
/// can be built together.
pub open spec fn automaton_entries(
    entries: Seq<(int, Seq<char>)>,
    folds: bool,
) -> Seq<(int, Seq<char>)> {
    let kept = built_alone(entries, folds);
    if buildable(patterns_of(entries), folds) {
        entries
    } else if rejected_alone(entries, folds).len() > 0 && buildable(patterns_of(kept), folds) {
        kept
    } else {
        Seq::empty()
    }
}

/// The entries that no automaton speaks for.
pub open spec fn fallback_entries(
    entries: Seq<(int, Seq<char>)>,
    folds: bool,
) -> Seq<(int, Seq<char>)> {
    let kept = built_alone(entries, folds);
    if entries.len() == 0 || buildable(patterns_of(entries), folds) {
        Seq::empty()
    } else if automaton_entries(entries, folds).len() > 0 {
        rejected_alone(entries, folds)
    } else {
        rejected_alone(entries, folds) + kept
    }
}

/// The entries that a notice is given of: those rejected by themselves, where all together could
/// not be built.
pub open spec fn noticed_entries(
    entries: Seq<(int, Seq<char>)>,
    folds: bool,
) -> Seq<(int, Seq<char>)> {
    if entries.len() == 0 || buildable(patterns_of(entries), folds) {
        Seq::empty()
    } else {
        rejected_alone(entries, folds)
    }
}

/// Entries as notices show them.
pub open spec fn shown_entries(entries: Seq<(int, Seq<char>)>) -> Seq<(int, Seq<char>)> {
    entries.map_values(|e: (int, Seq<char>)| (e.0, preview_of(e.1)))
}

/// The stubs that entries speak for.
pub open spec fn entry_ids(entries: Seq<(int, Seq<char>)>) -> Seq<int> {
    entries.map_values(|e: (int, Seq<char>)| e.0)
}

/// Stub ids as contracts see them.
spec fn id_models(ids: Seq<usize>) -> Seq<int> {
    ids.map_values(|i: usize| i as int)
}

/// An entry is among those built alone, or among those rejected alone, as its pattern says.
proof fn lemma_parted(entries: Seq<(int, Seq<char>)>, folds: bool, e: (int, Seq<char>))
    ensures
        built_alone(entries, folds).contains(e) <==> entries.contains(e) && buildable(
            seq![e.1],
            folds,
        ),
        rejected_alone(entries, folds).contains(e) <==> entries.contains(e) && !buildable(
            seq![e.1],
            folds,
        ),
    decreases entries.len(),
{
    if entries.len() > 0 {
        let front = entries.drop_last();
        lemma_parted(front, folds, e);
        assert(entries =~= front.push(entries.last()));
        lemma_push_contains(front, entries.last(), e);
        lemma_push_contains(built_alone(front, folds), entries.last(), e);
        lemma_push_contains(rejected_alone(front, folds), entries.last(), e);
    }
}

proof fn lemma_push_contains<T>(s: Seq<T>, last: T, e: T)
    ensures
        s.push(last).contains(e) <==> s.contains(e) || e == last,
{
    if s.contains(e) {
        let i = choose|i: int| 0 <= i < s.len() && s[i] == e;
        assert(s.push(last)[i] == e);
    }
    if e == last {
        assert(s.push(last)[s.len() as int] == e);
    }
}

/// The automaton speaks for an entry, or it falls back.
proof fn lemma_falls_back(entries: Seq<(int, Seq<char>)>, folds: bool, e: (int, Seq<char>))
    ensures
        automaton_entries(entries, folds).contains(e) ==> entries.contains(e),
        fallback_entries(entries, folds).contains(e) <==> entries.contains(e)
            && !automaton_entries(entries, folds).contains(e),
{
    lemma_parted(entries, folds, e);
    let kept = built_alone(entries, folds);
    let refused = rejected_alone(entries, folds);
    let both = refused + kept;
    if kept.contains(e) {
        let i = choose|i: int| 0 <= i < kept.len() && kept[i] == e;
        assert(both[refused.len() + i] == e);
    }
    if refused.contains(e) {
        let i = choose|i: int| 0 <= i < refused.len() && refused[i] == e;
        assert(both[i] == e);
    }
    if both.contains(e) {
        let i = choose|i: int| 0 <= i < both.len() && both[i] == e;
        if i < refused.len() {
            assert(refused[i] == e);
        } else {
            assert(kept[i - refused.len()] == e);
        }
    }
}

fn entry_patterns(entries: &Vec<(usize, String)>) -> (r: Vec<String>)
    ensures
        record::texts(r@) == patterns_of(entry_models(entries@)),
{
    let mut patterns: Vec<String> = Vec::new();
    let mut k: usize = 0;
    while k < entries.len()
        invariant
            k <= entries@.len(),
            patterns@.len() == k,
            forall|j: int| 0 <= j < k ==> (#[trigger] patterns@[j])@ == entries@[j].1@,
        decreases entries@.len() - k,
    {
        let pattern: String = entries[k].1.as_str().to_owned();
        proof {
            assert(pattern@ == entries@[k as int].1@);
        }
        patterns.push(pattern);
        k += 1;
    }
    proof {
        assert(record::texts(patterns@) =~= patterns_of(entry_models(entries@)));
    }
    patterns
}

/// Puts a built automaton together with the stubs that its patterns speak for. Where none was built
/// there is nothing to put together.
fn assembled(
    entries: &Vec<(usize, String)>,
    case_insensitive: bool,
    n: usize,
    built: Option<meta::Regex>,
) -> (r: Option<MultiRegex>)
    requires
        entries@.len() > 0,
        forall|k: int| 0 <= k < entries@.len() ==> (#[trigger] entries@[k]).0 < n,
        built is Some ==> automaton_patterns(built->0) == Some(
            (patterns_of(entry_models(entries@)), case_insensitive),
        ),
    ensures
        r is Some <==> built is Some,
        r is Some ==> r->0.fits(n as nat) && patterns_are(
            r->0,
            entry_models(entries@),
            !case_insensitive,
        ),
{
    let automaton: meta::Regex = match built {
        Some(a) => a,
        None => {
            return None;
        },
    };
    let mut pattern_stubs: Vec<usize> = Vec::new();
    let mut k: usize = 0;
    while k < entries.len()
        invariant
            k <= entries@.len(),
            pattern_stubs@.len() == k,
            forall|j: int| 0 <= j < k ==> (#[trigger] pattern_stubs@[j]) == entries@[j].0,
        decreases entries@.len() - k,
    {
        pattern_stubs.push(entries[k].0);
        k += 1;
    }
    let set = MultiRegex { automaton, pattern_stubs };
    proof {
        assert forall|j: int| 0 <= j < set.pattern_stubs@.len() implies (
        #[trigger] set.pattern_stubs@[j]) < n by {
            assert(entries@[j].0 < n);
        }
    }
    Some(set)
}

/// Builds one automaton over the entries' patterns, where there are any and it can be built within
/// the limits.
fn assemble(entries: &Vec<(usize, String)>, case_insensitive: bool, n: usize) -> (r: Option<
    MultiRegex,
>)
    requires
        forall|k: int| 0 <= k < entries@.len() ==> (#[trigger] entries@[k]).0 < n,
    ensures
        r is Some == (entries@.len() > 0 && buildable(
            patterns_of(entry_models(entries@)),
            case_insensitive,
        )),
        r is Some ==> r->0.fits(n as nat) && patterns_are(
            r->0,
            entry_models(entries@),
            !case_insensitive,
        ),
{
    if entries.len() == 0 {
        return None;
    }
    let patterns: Vec<String> = entry_patterns(entries);
    let built: Option<meta::Regex> = build_patterns(
        &patterns,
        case_insensitive,
        NFA_SIZE_LIMIT,
        DFA_SIZE_LIMIT,
        HYBRID_CACHE_CAPACITY,
    );
    assembled(entries, case_insensitive, n, built)
}

/// What became of one case class, as contracts see it.
spec fn class_is(
    c: CaseClass,
    entries: Seq<(int, Seq<char>)>,
    case_insensitive: bool,
    n: nat,
) -> bool {
    &&& c.set is Some == (automaton_entries(entries, case_insensitive).len() > 0)
    &&& c.set is Some ==> c.set->0.fits(n) && patterns_are(
        c.set->0,
        automaton_entries(entries, case_insensitive),
        !case_insensitive,
    )
    &&& id_models(c.fallback@) == entry_ids(fallback_entries(entries, case_insensitive))
    &&& entry_models(c.rejected@) == shown_entries(noticed_entries(entries, case_insensitive))
}

/// Builds one case class's automaton. A set that cannot be built is taken apart: a pattern that is
/// rejected by itself falls back to full evaluation, and the others are tried again without it.
fn build_case_class(entries: Vec<(usize, String)>, case_insensitive: bool, n: usize) -> (r:
    CaseClass)
    requires
        forall|k: int| 0 <= k < entries@.len() ==> (#[trigger] entries@[k]).0 < n,
    ensures
        class_is(r, entry_models(entries@), case_insensitive, n as nat),
        forall|k: int| 0 <= k < r.fallback@.len() ==> (#[trigger] r.fallback@[k]) < n,
{
    let ghost all = entry_models(entries@);
    if entries.len() == 0 {
        let c = CaseClass { set: None, fallback: Vec::new(), rejected: Vec::new() };
        proof {
            assert(id_models(c.fallback@) =~= entry_ids(fallback_entries(all, case_insensitive)));
            assert(entry_models(c.rejected@) =~= shown_entries(
                noticed_entries(all, case_insensitive),
            ));
        }
        return c;
    }
    if let Some(m) = assemble(&entries, case_insensitive, n) {
        let c = CaseClass { set: Some(m), fallback: Vec::new(), rejected: Vec::new() };
        proof {
            assert(id_models(c.fallback@) =~= entry_ids(fallback_entries(all, case_insensitive)));
            assert(entry_models(c.rejected@) =~= shown_entries(
                noticed_entries(all, case_insensitive),
            ));
        }
        return c;
    }
    let mut kept: Vec<(usize, String)> = Vec::new();
    let mut fallback: Vec<usize> = Vec::new();
    let mut rejected: Vec<(usize, String)> = Vec::new();
    let mut k: usize = 0;
    proof {
        assert(all.take(0) =~= Seq::<(int, Seq<char>)>::empty());
        assert(entry_models(kept@) =~= built_alone(all.take(0), case_insensitive));
        assert(id_models(fallback@) =~= entry_ids(rejected_alone(all.take(0), case_insensitive)));
        assert(entry_models(rejected@) =~= shown_entries(
            rejected_alone(all.take(0), case_insensitive),
        ));
    }
    while k < entries.len()
        invariant
            k <= entries@.len(),
            all == entry_models(entries@),
            forall|j: int| 0 <= j < entries@.len() ==> (#[trigger] entries@[j]).0 < n,
            forall|j: int| 0 <= j < kept@.len() ==> (#[trigger] kept@[j]).0 < n,
            forall|j: int| 0 <= j < fallback@.len() ==> (#[trigger] fallback@[j]) < n,
            entry_models(kept@) == built_alone(all.take(k as int), case_insensitive),
            id_models(fallback@) == entry_ids(
                rejected_alone(all.take(k as int), case_insensitive),
            ),
            entry_models(rejected@) == shown_entries(
                rejected_alone(all.take(k as int), case_insensitive),
            ),
        decreases entries@.len() - k,
    {
        let id: usize = entries[k].0;
        let pattern: String = entries[k].1.as_str().to_owned();
        let mut single: Vec<String> = Vec::new();
        single.push(pattern.as_str().to_owned());
        let ghost had_kept = kept@;
        let ghost had_fallback = fallback@;
        let ghost had_rejected = rejected@;
        let ghost refused = rejected_alone(all.take(k as int), case_insensitive);
        let ghost e = (id as int, pattern@);
        proof {
            assert(e == all[k as int]);
            assert(all.take(k + 1).drop_last() =~= all.take(k as int));
            assert(all.take(k + 1).last() == e);
            assert(record::texts(single@) =~= seq![pattern@]);
        }
        match build_patterns(
            &single,
            case_insensitive,
            NFA_SIZE_LIMIT,
            DFA_SIZE_LIMIT,
            HYBRID_CACHE_CAPACITY,
        ) {
            Some(_) => {
                kept.push((id, pattern));
                proof {
                    assert(entry_models(kept@) =~= entry_models(had_kept).push(e));
                }
            },
            None => {
                rejected.push((id, pattern_preview(pattern.as_str())));
                fallback.push(id);
                proof {
                    assert(entry_models(rejected@) =~= entry_models(had_rejected).push(
                        (id as int, preview_of(pattern@)),
                    ));
                    assert(shown_entries(refused.push(e)) =~= shown_entries(refused).push(
                        (id as int, preview_of(pattern@)),
                    ));
                    assert(id_models(fallback@) =~= id_models(had_fallback).push(id as int));
                    assert(entry_ids(refused.push(e)) =~= entry_ids(refused).push(id as int));
                }
            },
        }
        k += 1;
    }
    let ghost left = built_alone(all, case_insensitive);
    let ghost refused = rejected_alone(all, case_insensitive);
    proof {
        assert(all.take(k as int) =~= all);
        assert(fallback@.len() == id_models(fallback@).len() == refused.len());
        assert(kept@.len() == entry_models(kept@).len() == left.len());
    }
    if fallback.len() > 0 {
        if let Some(m) = assemble(&kept, case_insensitive, n) {
            return CaseClass { set: Some(m), fallback, rejected };
        }
    }
    let mut j: usize = 0;
    let ghost start = fallback@;
    while j < kept.len()
        invariant
            j <= kept@.len(),
            forall|q: int| 0 <= q < kept@.len() ==> (#[trigger] kept@[q]).0 < n,
            forall|q: int| 0 <= q < fallback@.len() ==> (#[trigger] fallback@[q]) < n,
            fallback@.len() == start.len() + j,
            forall|q: int| 0 <= q < start.len() ==> start[q] == #[trigger] fallback@[q],
            forall|q: int|
                start.len() <= q < start.len() + j ==> (#[trigger] fallback@[q]) == kept@[q
                    - start.len()].0,
        decreases kept@.len() - j,
    {
        fallback.push(kept[j].0);
        j += 1;
    }
    proof {
        let both = refused + left;
        assert forall|q: int| 0 <= q < both.len() implies #[trigger] id_models(fallback@)[q]
            == entry_ids(both)[q] by {
            if q < refused.len() {
                assert(id_models(start)[q] == entry_ids(refused)[q]);
                assert(start[q] == fallback@[q]);
            } else {
                assert(entry_models(kept@)[q - refused.len()] == left[q - refused.len()]);
                assert(fallback@[q] == kept@[q - start.len()].0);
            }
        }
        assert(id_models(fallback@) =~= entry_ids(both));
    }
    CaseClass { set: None, fallback, rejected }
}

/// The pattern dimension: `matches` on the path, one automaton per case class.
pub struct RegexDimension {
    insensitive: Option<MultiRegex>,
    sensitive: Option<MultiRegex>,
    /// Stubs without an indexed pattern.
    always: CandidateBits,
}

impl RegexDimension {
    /// The stubs without an indexed pattern.
    pub closed spec fn unindexed(&self) -> Set<int> {
        self.always@
    }

    /// A case class's automaton.
    pub closed spec fn class(&self, case_sensitive: bool) -> Option<MultiRegex> {
        if case_sensitive {
            self.sensitive
        } else {
            self.insensitive
        }
    }
}

/// Whether an optional pattern set hits.
pub open spec fn patterns_hit(s: Option<MultiRegex>, i: int, path: Seq<char>) -> bool {
    s is Some && s->0.hits(i, path)
}

/// Whether an optional pattern set has a pattern that speaks for stub `i`.
pub open spec fn patterns_index(s: Option<MultiRegex>, i: int) -> bool {
    s is Some && exists|p: int| 0 <= p < s->0.count() && (#[trigger] s->0.entry(p)).0 == i
}

impl Dimension for RegexDimension {
    closed spec fn space(&self) -> nat {
        self.always.space()
    }

    closed spec fn valid(&self) -> bool {
        &&& self.always.wf()
        &&& self.insensitive is Some ==> self.insensitive->0.fits(self.always.space())
        &&& self.sensitive is Some ==> self.sensitive->0.fits(self.always.space())
        &&& self.insensitive is None && self.sensitive is None ==> self.always@ == all_ids(
            self.always.space(),
        )
    }

    open spec fn selected(&self, request: RequestKey) -> Set<int> {
        Set::new(
            |i: int|
                0 <= i < self.space() && (self.unindexed().contains(i) || patterns_hit(
                    self.class(false),
                    i,
                    request.path,
                ) || patterns_hit(self.class(true), i, request.path)),
        )
    }

    open spec fn indexes(&self, i: int) -> bool {
        patterns_index(self.class(false), i) || patterns_index(self.class(true), i)
    }

    fn select(&self, request: &DimensionRequest<'_>, out: &mut CandidateBits) {
        out.copy_from(&self.always);
        if let Some(s) = &self.insensitive {
            s.mark(request.path, out);
        }
        if let Some(s) = &self.sensitive {
            s.mark(request.path, out);
        }
        proof {
            out.lemma_members_in_space();
            assert(out@ =~= self.selected(request@));
        }
    }

    fn prunes(&self) -> (r: bool) {
        let r: bool = self.insensitive.is_some() || self.sensitive.is_some();
        proof {
            if r {
                let s = self.class(self.insensitive is None)->0;
                assert(s.pattern_stubs@[0] < self.space());
                assert(s.entry(0).0 == s.pattern_stubs@[0]);
                assert(self.indexes(s.entry(0).0));
            } else {
                assert forall|q: RequestKey| #[trigger] self.selected(q) == all_ids(
                    self.space(),
                ) by {
                    assert(self.selected(q) =~= all_ids(self.space()));
                }
            }
        }
        r
    }
}

/// The predicates of stub `i`.
pub open spec fn predicates_of(stubs: Seq<StubState>, i: int) -> Seq<Predicate> {
    stubs[i].stub.predicates@
}

impl PathDimension {
    fn build(stubs: &Vec<StubState>) -> (d: Self)
        ensures
            d.valid(),
            d.space() == stubs@.len(),
            forall|i: int|
                0 <= i < stubs@.len() ==> #[trigger] d.anchor(i) == match path_of(
                    predicates_of(stubs@, i),
                ) {
                    Some(t) => Some(structural_hash::lowered(t)),
                    None => None,
                },
    {
        let n: usize = stubs.len();
        let mut folded: Vec<Option<String>> = Vec::new();
        let mut exact: Buckets = Buckets::new();
        let mut always: CandidateBits = CandidateBits::zeros(n);
        let mut i: usize = 0;
        while i < n
            invariant
                n == stubs@.len(),
                i <= n,
                folded@.len() == i,
                always.wf(),
                always.space() == n,
                forall|k: int| #[trigger]
                    always@.contains(k) <==> 0 <= k < i && folded@[k] is None,
                forall|k: int|
                    0 <= k < i ==> text::optional_text(#[trigger] folded@[k]) == match path_of(
                        predicates_of(stubs@, k),
                    ) {
                        Some(t) => Some(structural_hash::lowered(t)),
                        None => None,
                    },
                forall|k: int|
                    0 <= k < i && (#[trigger] folded@[k]) is Some ==> exact.ids(
                        structural_hash::text_hash(folded@[k]->0@),
                    ).contains(k as usize),
                forall|h: u64, k: int|
                    0 <= k < exact.ids(h).len() ==> (#[trigger] exact.ids(h)[k]) < i
                        && folded@[exact.ids(h)[k] as int] is Some,
                forall|h: u64| #[trigger] exact.hashes().contains(h) ==> exact.ids(h).len() > 0,
            decreases n - i,
        {
            let ghost before = exact;
            let ghost was = folded@;
            match classify(&stubs[i].stub.predicates) {
                Some(t) => {
                    let low: String = structural_hash::lower(t.as_str());
                    let h: u64 = structural_hash::hash_text(low.as_str());
                    exact.put(h, i);
                    folded.push(Some(low));
                    proof {
                        assert(exact.ids(h).last() == i);
                        assert(exact.ids(h).contains(i));
                        assert forall|h2: u64, k: int| 0 <= k < exact.ids(h2).len() implies (
                        #[trigger] exact.ids(h2)[k]) < i + 1 && folded@[exact.ids(
                            h2,
                        )[k] as int] is Some by {
                            if h2 != h || k < before.ids(h).len() {
                                assert(before.ids(h2)[k] < i);
                                assert(exact.ids(h2)[k] == before.ids(h2)[k]);
                                assert(was[before.ids(h2)[k] as int] == folded@[before.ids(
                                    h2,
                                )[k] as int]);
                            }
                        }
                        assert forall|k: int| 0 <= k < i + 1 && (
                        #[trigger] folded@[k]) is Some implies exact.ids(
                            structural_hash::text_hash(folded@[k]->0@),
                        ).contains(k as usize) by {
                            if k < i {
                                assert(was[k] == folded@[k]);
                                let h2 = structural_hash::text_hash(folded@[k]->0@);
                                let q = choose|q: int|
                                    0 <= q < before.ids(h2).len() && before.ids(h2)[q] == k as usize;
                                assert(exact.ids(h2)[q] == k as usize);
                            }
                        }
                    }
                },
                None => {
                    always.set(i);
                    folded.push(None);
                    proof {
                        assert forall|h2: u64, k: int| 0 <= k < exact.ids(h2).len() implies (
                        #[trigger] exact.ids(h2)[k]) < i + 1 && folded@[exact.ids(
                            h2,
                        )[k] as int] is Some by {
                            assert(before.ids(h2)[k] < i);
                        }
                    }
                },
            }
            i += 1;
        }
        let d = PathDimension { folded, exact, always };
        proof {
            assert(d.always@ =~= Set::new(
                |k: int| 0 <= k < d.folded@.len() && d.folded@[k] is None,
            ));
            assert(d.folded.len() == d.folded@.len());
        }
        d
    }
}

impl MethodDimension {
    fn build(stubs: &Vec<StubState>) -> (d: Self)
        ensures
            d.valid(),
            d.space() == stubs@.len(),
            forall|i: int|
                0 <= i < stubs@.len() ==> #[trigger] d.anchor(i) == match method_of(
                    predicates_of(stubs@, i),
                ) {
                    Some(m) => Some(slot_of(m)),
                    None => None,
                },
    {
        let n: usize = stubs.len();
        let mut wanted: Vec<Option<usize>> = Vec::new();
        let mut slots: Vec<Vec<usize>> = Vec::new();
        while slots.len() < METHOD_SLOTS
            invariant
                slots@.len() <= METHOD_SLOTS,
                forall|k: int| 0 <= k < slots@.len() ==> (#[trigger] slots@[k])@.len() == 0,
            decreases METHOD_SLOTS - slots@.len(),
        {
            slots.push(Vec::new());
        }
        let mut always: CandidateBits = CandidateBits::zeros(n);
        let mut i: usize = 0;
        while i < n
            invariant
                n == stubs@.len(),
                i <= n,
                wanted@.len() == i,
                always.wf(),
                always.space() == n,
                slots@.len() == METHOD_SLOTS,
                forall|k: int| #[trigger]
                    always@.contains(k) <==> 0 <= k < i && wanted@[k] is None,
                forall|k: int|
                    0 <= k < i ==> match method_of(predicates_of(stubs@, k)) {
                        Some(m) => (#[trigger] wanted@[k]) is Some && wanted@[k]->0 == slot_of(m),
                        None => wanted@[k] is None,
                    },
                forall|k: int|
                    0 <= k < i && (#[trigger] wanted@[k]) is Some ==> {
                        &&& wanted@[k]->0 < METHOD_SLOTS
                        &&& slots@[wanted@[k]->0 as int]@.contains(k as usize)
                    },
                forall|k: int, j: int|
                    0 <= k < METHOD_SLOTS && 0 <= j < slots@[k]@.len() ==> {
                        &&& (#[trigger] slots@[k]@[j]) < i
                        &&& wanted@[slots@[k]@[j] as int] == Some(k as usize)
                    },
            decreases n - i,
        {
            let ghost before = slots@;
            let ghost was = wanted@;
            match classify_method(&stubs[i].stub.predicates) {
                Some(m) => {
                    let slot: usize = method_slot(m.as_str());
                    slots[slot].push(i);
                    wanted.push(Some(slot));
                    proof {
                        assert(slots@[slot as int]@ =~= before[slot as int]@.push(i));
                        assert(slots@[slot as int]@.last() == i);
                        assert forall|k: int| 0 <= k < i + 1 && (
                        #[trigger] wanted@[k]) is Some implies wanted@[k]->0 < METHOD_SLOTS
                            && slots@[wanted@[k]->0 as int]@.contains(k as usize) by {
                            if k < i {
                                assert(was[k] == wanted@[k]);
                                let z = wanted@[k]->0 as int;
                                let q = choose|q: int|
                                    0 <= q < before[z]@.len() && before[z]@[q] == k as usize;
                                assert(slots@[z]@[q] == k as usize);
                            }
                        }
                        assert forall|k: int, j: int|
                            0 <= k < METHOD_SLOTS && 0 <= j < slots@[k]@.len() implies (
                        #[trigger] slots@[k]@[j]) < i + 1 && wanted@[slots@[k]@[j] as int] == Some(
                            k as usize,
                        ) by {
                            if k != slot || j < before[k]@.len() {
                                assert(before[k]@[j] < i);
                                assert(slots@[k]@[j] == before[k]@[j]);
                                assert(was[before[k]@[j] as int] == wanted@[before[k]@[j] as int]);
                            }
                        }
                    }
                },
                None => {
                    always.set(i);
                    wanted.push(None);
                    proof {
                        assert forall|k: int, j: int|
                            0 <= k < METHOD_SLOTS && 0 <= j < slots@[k]@.len() implies (
                        #[trigger] slots@[k]@[j]) < i + 1 && wanted@[slots@[k]@[j] as int] == Some(
                            k as usize,
                        ) by {
                            assert(before[k]@[j] < i);
                        }
                    }
                },
            }
            i += 1;
        }
        let d = MethodDimension { wanted, slots, always };
        proof {
            assert(d.always@ =~= Set::new(
                |k: int| 0 <= k < d.wanted@.len() && d.wanted@[k] is None,
            ));
            assert(d.wanted.len() == d.wanted@.len());
        }
        d
    }
}

impl BodyHashDimension {
    fn build(stubs: &Vec<StubState>) -> (d: Self)
        ensures
            d.valid(),
            d.space() == stubs@.len(),
            forall|i: int|
                0 <= i < stubs@.len() ==> #[trigger] d.anchor(i) == body_of(
                    predicates_of(stubs@, i),
                ),
    {
        let n: usize = stubs.len();
        let mut wanted: Vec<Option<u64>> = Vec::new();
        let mut by_hash: Buckets = Buckets::new();
        let mut always: CandidateBits = CandidateBits::zeros(n);
        let mut i: usize = 0;
        while i < n
            invariant
                n == stubs@.len(),
                i <= n,
                wanted@.len() == i,
                always.wf(),
                always.space() == n,
                forall|k: int| #[trigger]
                    always@.contains(k) <==> 0 <= k < i && wanted@[k] is None,
                forall|k: int|
                    0 <= k < i ==> (#[trigger] wanted@[k]) == body_of(predicates_of(stubs@, k)),
                forall|k: int|
                    0 <= k < i && (#[trigger] wanted@[k]) is Some ==> by_hash.ids(
                        wanted@[k]->0,
                    ).contains(k as usize),
                forall|h: u64, k: int|
                    0 <= k < by_hash.ids(h).len() ==> (#[trigger] by_hash.ids(h)[k]) < i
                        && wanted@[by_hash.ids(h)[k] as int] == Some(h),
                forall|h: u64| #[trigger] by_hash.hashes().contains(h) ==> by_hash.ids(h).len() > 0,
            decreases n - i,
        {
            let ghost before = by_hash;
            let ghost was = wanted@;
            match classify_body(&stubs[i].stub.predicates) {
                Some(h) => {
                    by_hash.put(h, i);
                    wanted.push(Some(h));
                    proof {
                        assert(by_hash.ids(h).last() == i);
                        assert forall|h2: u64, k: int| 0 <= k < by_hash.ids(h2).len() implies (
                        #[trigger] by_hash.ids(h2)[k]) < i + 1 && wanted@[by_hash.ids(h2)[k] as int]
                            == Some(h2) by {
                            if h2 != h || k < before.ids(h).len() {
                                assert(before.ids(h2)[k] < i);
                                assert(by_hash.ids(h2)[k] == before.ids(h2)[k]);
                                assert(was[before.ids(h2)[k] as int] == wanted@[before.ids(
                                    h2,
                                )[k] as int]);
                            }
                        }
                        assert forall|k: int| 0 <= k < i + 1 && (
                        #[trigger] wanted@[k]) is Some implies by_hash.ids(wanted@[k]->0).contains(
                            k as usize,
                        ) by {
                            if k < i {
                                assert(was[k] == wanted@[k]);
                                let h2 = wanted@[k]->0;
                                let q = choose|q: int|
                                    0 <= q < before.ids(h2).len() && before.ids(h2)[q] == k as usize;
                                assert(by_hash.ids(h2)[q] == k as usize);
                            }
                        }
                    }
                },
                None => {
                    always.set(i);
                    wanted.push(None);
                    proof {
                        assert forall|h2: u64, k: int| 0 <= k < by_hash.ids(h2).len() implies (
                        #[trigger] by_hash.ids(h2)[k]) < i + 1 && wanted@[by_hash.ids(h2)[k] as int]
                            == Some(h2) by {
                            assert(before.ids(h2)[k] < i);
                        }
                    }
                },
            }
            i += 1;
        }
        let d = BodyHashDimension { wanted, by_hash, always };
        proof {
            assert(d.always@ =~= Set::new(
                |k: int| 0 <= k < d.wanted@.len() && d.wanted@[k] is None,
            ));
            assert(d.wanted.len() == d.wanted@.len());
        }
        d
    }
}

/// The literals to index of one case class, each with the stub that requires it: those that are not
/// empty, in declaration order.
pub open spec fn literal_entries(
    stubs: Seq<StubState>,
    case_sensitive: bool,
) -> Seq<(int, LiteralModel)>
    decreases stubs.len(),
{
    if stubs.len() == 0 {
        Seq::empty()
    } else {
        let before = literal_entries(stubs.drop_last(), case_sensitive);
        match literal_of(predicates_of(stubs, stubs.len() - 1)) {
            Some(l) => if l.text.len() > 0 && l.case_sensitive == case_sensitive {
                before.push((stubs.len() - 1, l))
            } else {
                before
            },
            None => before,
        }
    }
}

/// Whether a case class has literals, and an automaton over them can be built.
pub open spec fn literals_indexed(stubs: Seq<StubState>, case_sensitive: bool) -> bool {
    let entries = literal_entries(stubs, case_sensitive);
    entries.len() > 0 && literals_build(literal_texts(entries), !case_sensitive)
}

/// The stubs that no literal speaks for: those that require none or an empty one, and those whose
/// case class cannot be built.
pub open spec fn literal_fallback(stubs: Seq<StubState>) -> Set<int> {
    Set::new(
        |i: int|
            0 <= i < stubs.len() && match literal_of(predicates_of(stubs, i)) {
                Some(l) => l.text.len() == 0 || !literals_indexed(stubs, l.case_sensitive),
                None => true,
            },
    )
}

/// The entries are the stubs' own literals.
proof fn lemma_literal_entries(stubs: Seq<StubState>, case_sensitive: bool, e: (int, LiteralModel))
    ensures
        literal_entries(stubs, case_sensitive).contains(e) <==> 0 <= e.0 < stubs.len()
            && literal_of(predicates_of(stubs, e.0)) == Some(e.1) && e.1.text.len() > 0
            && e.1.case_sensitive == case_sensitive,
    decreases stubs.len(),
{
    if stubs.len() > 0 {
        let front = stubs.drop_last();
        let last = stubs.len() - 1;
        lemma_literal_entries(front, case_sensitive, e);
        if 0 <= e.0 < last {
            assert(predicates_of(front, e.0) == predicates_of(stubs, e.0));
        }
        match literal_of(predicates_of(stubs, last)) {
            Some(l) => {
                lemma_push_contains(literal_entries(front, case_sensitive), (last, l), e);
            },
            None => {},
        }
    }
}

/// The entries depend on the stubs' predicates alone.
proof fn lemma_literal_entries_same(a: Seq<StubState>, b: Seq<StubState>, case_sensitive: bool)
    requires
        a.len() == b.len(),
        forall|i: int| 0 <= i < a.len() ==> #[trigger] predicates_of(b, i) == predicates_of(a, i),
    ensures
        literal_entries(a, case_sensitive) == literal_entries(b, case_sensitive),
    decreases a.len(),
{
    if a.len() > 0 {
        let fa = a.drop_last();
        let fb = b.drop_last();
        assert forall|i: int| 0 <= i < fa.len() implies #[trigger] predicates_of(fb, i)
            == predicates_of(fa, i) by {
            assert(predicates_of(b, i) == predicates_of(a, i));
        }
        lemma_literal_entries_same(fa, fb, case_sensitive);
        assert(predicates_of(b, a.len() - 1) == predicates_of(a, a.len() - 1));
    }
}

impl LiteralDimension {
    /// The dimension indexes these stubs: each case class that can be built holds exactly its
    /// literals, and the other stubs are left out.
    pub open spec fn covers(&self, stubs: Seq<StubState>) -> bool {
        &&& self.space() == stubs.len()
        &&& self.unindexed() == literal_fallback(stubs)
        &&& forall|case_sensitive: bool|
            (#[trigger] self.class(case_sensitive)) is Some == literals_indexed(
                stubs,
                case_sensitive,
            )
        &&& forall|case_sensitive: bool|
            (#[trigger] self.class(case_sensitive)) is Some ==> literals_are(
                self.class(case_sensitive)->0,
                literal_entries(stubs, case_sensitive),
            )
    }

    fn build(stubs: &Vec<StubState>) -> (d: Self)
        ensures
            d.valid(),
            d.covers(stubs@),
    {
        let n: usize = stubs.len();
        let mut folded: Vec<(usize, String, LiteralKind)> = Vec::new();
        let mut exact: Vec<(usize, String, LiteralKind)> = Vec::new();
        let mut always: CandidateBits = CandidateBits::zeros(n);
        let mut i: usize = 0;
        proof {
            assert(literal_models(folded@, false) =~= literal_entries(stubs@.take(0), false));
            assert(literal_models(exact@, true) =~= literal_entries(stubs@.take(0), true));
        }
        while i < n
            invariant
                n == stubs@.len(),
                i <= n,
                always.wf(),
                always.space() == n,
                forall|k: int| #[trigger]
                    always@.contains(k) <==> 0 <= k < i && match literal_of(
                        predicates_of(stubs@, k),
                    ) {
                        Some(l) => l.text.len() == 0,
                        None => true,
                    },
                forall|k: int|
                    0 <= k < folded@.len() ==> (#[trigger] folded@[k]).0 < n
                        && folded@[k].1@.len() > 0,
                forall|k: int|
                    0 <= k < exact@.len() ==> (#[trigger] exact@[k]).0 < n && exact@[k].1@.len()
                        > 0,
                literal_models(folded@, false) == literal_entries(stubs@.take(i as int), false),
                literal_models(exact@, true) == literal_entries(stubs@.take(i as int), true),
            decreases n - i,
        {
            let found = classify_literal(&stubs[i].stub.predicates);
            let ghost had_folded = folded@;
            let ghost had_exact = exact@;
            proof {
                assert(literal_view(found) == literal_of(predicates_of(stubs@, i as int)));
                assert(stubs@.take(i + 1).drop_last() =~= stubs@.take(i as int));
                assert(predicates_of(stubs@.take(i + 1), i as int) == predicates_of(
                    stubs@,
                    i as int,
                ));
            }
            match found {
                Some(a) => {
                    let ghost l = literal_view(found)->0;
                    if a.text.as_str().is_empty() {
                        always.set(i);
                    } else if a.case_sensitive {
                        exact.push((i, a.text.clone(), a.kind));
                        proof {
                            assert(literal_models(exact@, true) =~= literal_models(
                                had_exact,
                                true,
                            ).push((i as int, l)));
                        }
                    } else {
                        folded.push((i, a.text.clone(), a.kind));
                        proof {
                            assert(literal_models(folded@, false) =~= literal_models(
                                had_folded,
                                false,
                            ).push((i as int, l)));
                        }
                    }
                },
                None => {
                    always.set(i);
                },
            }
            i += 1;
        }
        let ghost folded_entries = folded@;
        let ghost exact_entries = exact@;
        proof {
            assert(stubs@.take(n as int) =~= stubs@);
            assert(folded_entries.len() == literal_models(folded_entries, false).len());
            assert(exact_entries.len() == literal_models(exact_entries, true).len());
        }
        let (insensitive, folded_fallback) = build_literal_class(folded, true, n);
        let (sensitive, exact_fallback) = build_literal_class(exact, false, n);
        let ghost unanchored = always@;
        set_all(&folded_fallback, &mut always);
        let ghost midway = always@;
        set_all(&exact_fallback, &mut always);
        let d = LiteralDimension { insensitive, sensitive, always };
        proof {
            d.always.lemma_members_in_space();
            assert forall|k: int| d.unindexed().contains(k) <==> literal_fallback(stubs@).contains(
                k,
            ) by {
                if 0 <= k < n {
                    lemma_has_literal_entry(stubs@, folded_entries, false, k);
                    lemma_has_literal_entry(stubs@, exact_entries, true, k);
                    if insensitive is None && has_literal_entry(folded_entries, k) {
                        let q = choose|q: int|
                            0 <= q < folded_entries.len() && (#[trigger] folded_entries[q]).0 == k;
                        assert(folded_fallback@[q] == k);
                        assert(midway.contains(k));
                    }
                    if sensitive is None && has_literal_entry(exact_entries, k) {
                        let q = choose|q: int|
                            0 <= q < exact_entries.len() && (#[trigger] exact_entries[q]).0 == k;
                        assert(exact_fallback@[q] == k);
                    }
                    if midway.contains(k) && !unanchored.contains(k) {
                        let m = choose|m: int|
                            0 <= m < folded_fallback@.len() && #[trigger] folded_fallback@[m] == k;
                        assert(folded_entries[m].0 == k);
                        assert(has_literal_entry(folded_entries, k));
                    }
                    if d.always@.contains(k) && !midway.contains(k) {
                        let m = choose|m: int|
                            0 <= m < exact_fallback@.len() && #[trigger] exact_fallback@[m] == k;
                        assert(exact_entries[m].0 == k);
                        assert(has_literal_entry(exact_entries, k));
                    }
                }
            }
            assert(d.unindexed() =~= literal_fallback(stubs@));
            assert(d.class(false) == insensitive && d.class(true) == sensitive);
            if d.insensitive is None && d.sensitive is None {
                assert(d.always@ =~= all_ids(d.always.space()));
            }
        }
        d
    }
}

spec fn has_literal_entry(entries: Seq<(usize, String, LiteralKind)>, i: int) -> bool {
    exists|k: int| 0 <= k < entries.len() && (#[trigger] entries[k]).0 == i
}

/// A stub has an entry exactly where it requires a literal of the class.
proof fn lemma_has_literal_entry(
    stubs: Seq<StubState>,
    entries: Seq<(usize, String, LiteralKind)>,
    case_sensitive: bool,
    k: int,
)
    requires
        literal_models(entries, case_sensitive) == literal_entries(stubs, case_sensitive),
        0 <= k < stubs.len(),
    ensures
        has_literal_entry(entries, k) <==> match literal_of(predicates_of(stubs, k)) {
            Some(l) => l.text.len() > 0 && l.case_sensitive == case_sensitive,
            None => false,
        },
{
    let models = literal_models(entries, case_sensitive);
    if has_literal_entry(entries, k) {
        let q = choose|q: int| 0 <= q < entries.len() && (#[trigger] entries[q]).0 == k;
        assert(models.contains(models[q]));
        lemma_literal_entries(stubs, case_sensitive, models[q]);
    }
    match literal_of(predicates_of(stubs, k)) {
        Some(l) => {
            lemma_literal_entries(stubs, case_sensitive, (k, l));
            if models.contains((k, l)) {
                let q = choose|q: int| 0 <= q < models.len() && models[q] == (k, l);
                assert(entries[q].0 == k);
            }
        },
        None => {},
    }
}

/// Adds every id of a list.
fn set_all(ids: &Vec<usize>, out: &mut CandidateBits)
    requires
        old(out).wf(),
        forall|k: int| 0 <= k < ids@.len() ==> (#[trigger] ids@[k]) < old(out).space(),
    ensures
        final(out).wf(),
        final(out).space() == old(out).space(),
        forall|i: int| #[trigger]
            final(out)@.contains(i) <==> old(out)@.contains(i) || exists|k: int|
                0 <= k < ids@.len() && #[trigger] ids@[k] == i,
{
    let ghost before = out@;
    let ghost n = out.space();
    let mut k: usize = 0;
    while k < ids.len()
        invariant
            k <= ids@.len(),
            out.wf(),
            out.space() == n,
            forall|j: int| 0 <= j < ids@.len() ==> (#[trigger] ids@[j]) < n,
            forall|i: int| #[trigger]
                out@.contains(i) <==> before.contains(i) || exists|j: int|
                    0 <= j < k && #[trigger] ids@[j] == i,
        decreases ids@.len() - k,
    {
        let ghost was = out@;
        out.set(ids[k]);
        proof {
            assert forall|i: int| #[trigger]
                out@.contains(i) <==> before.contains(i) || exists|j: int|
                    0 <= j < k + 1 && #[trigger] ids@[j] == i by {
                if out@.contains(i) && !was.contains(i) {
                    assert(ids@[k as int] == i);
                }
                if exists|j: int| 0 <= j < k + 1 && #[trigger] ids@[j] == i {
                    let j = choose|j: int| 0 <= j < k + 1 && #[trigger] ids@[j] == i;
                    if j < k {
                        assert(was.contains(i));
                    }
                }
            }
        }
        k += 1;
    }
}

/// The patterns to index of one case class, each with the stub that requires it, in declaration
/// order.
pub open spec fn pattern_entries(
    stubs: Seq<StubState>,
    case_sensitive: bool,
) -> Seq<(int, Seq<char>)>
    decreases stubs.len(),
{
    if stubs.len() == 0 {
        Seq::empty()
    } else {
        let before = pattern_entries(stubs.drop_last(), case_sensitive);
        match regex_of(predicates_of(stubs, stubs.len() - 1)) {
            Some((pattern, b)) => if b == case_sensitive {
                before.push((stubs.len() - 1, pattern))
            } else {
                before
            },
            None => before,
        }
    }
}

/// The patterns of one case class that an automaton speaks for.
pub open spec fn patterns_indexed(
    stubs: Seq<StubState>,
    case_sensitive: bool,
) -> Seq<(int, Seq<char>)> {
    automaton_entries(pattern_entries(stubs, case_sensitive), !case_sensitive)
}

/// The stubs that no pattern speaks for: those that require none, and those whose pattern no
/// automaton could be built with.
pub open spec fn pattern_fallback(stubs: Seq<StubState>) -> Set<int> {
    Set::new(
        |i: int|
            0 <= i < stubs.len() && match regex_of(predicates_of(stubs, i)) {
                Some((pattern, case_sensitive)) => !patterns_indexed(
                    stubs,
                    case_sensitive,
                ).contains((i, pattern)),
                None => true,
            },
    )
}

/// The notices of a build: the patterns rejected by themselves, those that ignore case first.
pub open spec fn notices_of(stubs: Seq<StubState>) -> Seq<(int, Seq<char>)> {
    shown_entries(noticed_entries(pattern_entries(stubs, false), true)) + shown_entries(
        noticed_entries(pattern_entries(stubs, true), false),
    )
}

/// The entries are the stubs' own patterns.
proof fn lemma_pattern_entries(stubs: Seq<StubState>, case_sensitive: bool, e: (int, Seq<char>))
    ensures
        pattern_entries(stubs, case_sensitive).contains(e) <==> 0 <= e.0 < stubs.len()
            && regex_of(predicates_of(stubs, e.0)) == Some((e.1, case_sensitive)),
    decreases stubs.len(),
{
    if stubs.len() > 0 {
        let front = stubs.drop_last();
        let last = stubs.len() - 1;
        lemma_pattern_entries(front, case_sensitive, e);
        if 0 <= e.0 < last {
            assert(predicates_of(front, e.0) == predicates_of(stubs, e.0));
        }
        match regex_of(predicates_of(stubs, last)) {
            Some((pattern, b)) => {
                lemma_push_contains(pattern_entries(front, case_sensitive), (last, pattern), e);
            },
            None => {},
        }
    }
}

/// The entries depend on the stubs' predicates alone.
proof fn lemma_pattern_entries_same(a: Seq<StubState>, b: Seq<StubState>, case_sensitive: bool)
    requires
        a.len() == b.len(),
        forall|i: int| 0 <= i < a.len() ==> #[trigger] predicates_of(b, i) == predicates_of(a, i),
    ensures
        pattern_entries(a, case_sensitive) == pattern_entries(b, case_sensitive),
    decreases a.len(),
{
    if a.len() > 0 {
        let fa = a.drop_last();
        let fb = b.drop_last();
        assert forall|i: int| 0 <= i < fa.len() implies #[trigger] predicates_of(fb, i)
            == predicates_of(fa, i) by {
            assert(predicates_of(b, i) == predicates_of(a, i));
        }
        lemma_pattern_entries_same(fa, fb, case_sensitive);
        assert(predicates_of(b, a.len() - 1) == predicates_of(a, a.len() - 1));
    }
}

/// A pattern that is rejected by itself disables no other of its case class: where the others can be
/// built together, each of them is indexed.
pub proof fn law_a_rejected_pattern_disables_no_other(
    stubs: Seq<StubState>,
    case_sensitive: bool,
    i: int,
    pattern: Seq<char>,
)
    requires
        0 <= i < stubs.len(),
        regex_of(predicates_of(stubs, i)) == Some((pattern, case_sensitive)),
        buildable(seq![pattern], !case_sensitive),
        rejected_alone(pattern_entries(stubs, case_sensitive), !case_sensitive).len() > 0,
        buildable(
            patterns_of(built_alone(pattern_entries(stubs, case_sensitive), !case_sensitive)),
            !case_sensitive,
        ),
    ensures
        patterns_indexed(stubs, case_sensitive).contains((i, pattern)),
        !pattern_fallback(stubs).contains(i),
{
    let entries = pattern_entries(stubs, case_sensitive);
    lemma_pattern_entries(stubs, case_sensitive, (i, pattern));
    lemma_parted(entries, !case_sensitive, (i, pattern));
}

/// Whether an id is among those listed.
spec fn has_id(ids: Seq<usize>, i: int) -> bool {
    exists|k: int| 0 <= k < ids.len() && #[trigger] ids[k] == i
}

/// The ids that fall back of a case class are those of its stubs that no automaton speaks for.
proof fn lemma_pattern_fallen(
    stubs: Seq<StubState>,
    case_sensitive: bool,
    ids: Seq<usize>,
    k: int,
)
    requires
        id_models(ids) == entry_ids(
            fallback_entries(pattern_entries(stubs, case_sensitive), !case_sensitive),
        ),
        0 <= k < stubs.len(),
    ensures
        has_id(ids, k) <==> match regex_of(predicates_of(stubs, k)) {
            Some((pattern, b)) => b == case_sensitive && !patterns_indexed(
                stubs,
                case_sensitive,
            ).contains((k, pattern)),
            None => false,
        },
{
    let entries = pattern_entries(stubs, case_sensitive);
    let fallen = fallback_entries(entries, !case_sensitive);
    assert(ids.len() == id_models(ids).len() == fallen.len());
    if has_id(ids, k) {
        let q = choose|q: int| 0 <= q < ids.len() && #[trigger] ids[q] == k;
        assert(id_models(ids)[q] == entry_ids(fallen)[q]);
        assert(fallen.contains(fallen[q]));
        lemma_falls_back(entries, !case_sensitive, fallen[q]);
        lemma_pattern_entries(stubs, case_sensitive, fallen[q]);
    }
    match regex_of(predicates_of(stubs, k)) {
        Some((pattern, b)) => {
            let e = (k, pattern);
            lemma_falls_back(entries, !case_sensitive, e);
            lemma_pattern_entries(stubs, case_sensitive, e);
            if fallen.contains(e) {
                let q = choose|q: int| 0 <= q < fallen.len() && fallen[q] == e;
                assert(id_models(ids)[q] == entry_ids(fallen)[q]);
                assert(ids[q] == k);
            }
        },
        None => {},
    }
}

impl RegexDimension {
    /// The dimension indexes these stubs: the automaton of each case class holds exactly the
    /// patterns that can be built, and the other stubs are left out.
    pub open spec fn covers(&self, stubs: Seq<StubState>) -> bool {
        &&& self.space() == stubs.len()
        &&& self.unindexed() == pattern_fallback(stubs)
        &&& forall|case_sensitive: bool|
            (#[trigger] self.class(case_sensitive)) is Some == (patterns_indexed(
                stubs,
                case_sensitive,
            ).len() > 0)
        &&& forall|case_sensitive: bool|
            (#[trigger] self.class(case_sensitive)) is Some ==> patterns_are(
                self.class(case_sensitive)->0,
                patterns_indexed(stubs, case_sensitive),
                case_sensitive,
            )
    }

    /// Builds the dimension, with a notice for every pattern that was rejected.
    fn build(stubs: &Vec<StubState>) -> (r: (Self, Vec<(usize, String)>))
        ensures
            r.0.valid(),
            r.0.covers(stubs@),
            entry_models(r.1@) == notices_of(stubs@),
    {
        let n: usize = stubs.len();
        let mut folded: Vec<(usize, String)> = Vec::new();
        let mut exact: Vec<(usize, String)> = Vec::new();
        let mut always: CandidateBits = CandidateBits::zeros(n);
        let mut i: usize = 0;
        proof {
            assert(entry_models(folded@) =~= pattern_entries(stubs@.take(0), false));
            assert(entry_models(exact@) =~= pattern_entries(stubs@.take(0), true));
        }
        while i < n
            invariant
                n == stubs@.len(),
                i <= n,
                always.wf(),
                always.space() == n,
                forall|k: int| #[trigger]
                    always@.contains(k) <==> 0 <= k < i && regex_of(
                        predicates_of(stubs@, k),
                    ) is None,
                forall|k: int| 0 <= k < folded@.len() ==> (#[trigger] folded@[k]).0 < n,
                forall|k: int| 0 <= k < exact@.len() ==> (#[trigger] exact@[k]).0 < n,
                entry_models(folded@) == pattern_entries(stubs@.take(i as int), false),
                entry_models(exact@) == pattern_entries(stubs@.take(i as int), true),
            decreases n - i,
        {
            let ghost had_folded = folded@;
            let ghost had_exact = exact@;
            proof {
                assert(stubs@.take(i + 1).drop_last() =~= stubs@.take(i as int));
                assert(predicates_of(stubs@.take(i + 1), i as int) == predicates_of(
                    stubs@,
                    i as int,
                ));
            }
            match classify_regex(&stubs[i].stub.predicates) {
                Some((pattern, case_sensitive)) => {
                    let e: (usize, String) = (i, pattern.as_str().to_owned());
                    let ghost m = (i as int, pattern@);
                    if case_sensitive {
                        exact.push(e);
                        proof {
                            assert(entry_models(exact@) =~= entry_models(had_exact).push(m));
                        }
                    } else {
                        folded.push(e);
                        proof {
                            assert(entry_models(folded@) =~= entry_models(had_folded).push(m));
                        }
                    }
                },
                None => {
                    always.set(i);
                },
            }
            i += 1;
        }
        proof {
            assert(stubs@.take(n as int) =~= stubs@);
        }
        let insensitive: CaseClass = build_case_class(folded, true, n);
        let sensitive: CaseClass = build_case_class(exact, false, n);
        let ghost unanchored = always@;
        set_all(&insensitive.fallback, &mut always);
        let ghost midway = always@;
        set_all(&sensitive.fallback, &mut always);
        let ghost first = insensitive.fallback@;
        let ghost second = sensitive.fallback@;
        let mut notices: Vec<(usize, String)> = insensitive.rejected;
        let mut others: Vec<(usize, String)> = sensitive.rejected;
        proof {
            assert(entry_models(notices@ + others@) =~= entry_models(notices@) + entry_models(
                others@,
            ));
        }
        notices.append(&mut others);
        let d = RegexDimension { insensitive: insensitive.set, sensitive: sensitive.set, always };
        proof {
            d.always.lemma_members_in_space();
            assert forall|k: int| d.unindexed().contains(k) <==> pattern_fallback(stubs@).contains(
                k,
            ) by {
                if 0 <= k < n {
                    lemma_pattern_fallen(stubs@, false, first, k);
                    lemma_pattern_fallen(stubs@, true, second, k);
                    assert(midway.contains(k) <==> unanchored.contains(k) || has_id(first, k));
                    assert(d.always@.contains(k) <==> midway.contains(k) || has_id(second, k));
                }
            }
            assert(d.unindexed() =~= pattern_fallback(stubs@));
            assert(d.class(false) == insensitive.set && d.class(true) == sensitive.set);
            if d.insensitive is None && d.sensitive is None {
                assert(d.always@ =~= all_ids(d.always.space()));
            }
        }
        (d, notices)
    }
}

/// The path a stub requires admits the request's.
pub open spec fn path_admits(ps: Seq<Predicate>, q: RequestKey) -> bool {
    match path_of(ps) {
        Some(t) => structural_hash::lowered(t) == structural_hash::lowered(q.path),
        None => true,
    }
}

/// The method a stub requires shares its slot with the request's.
pub open spec fn method_admits(ps: Seq<Predicate>, q: RequestKey) -> bool {
    match method_of(ps) {
        Some(m) => slot_of(m) == slot_of(q.method),
        None => true,
    }
}

/// The path literal a stub requires holds of the request's path. An empty one always does.
pub open spec fn literal_admits(ps: Seq<Predicate>, q: RequestKey) -> bool {
    match literal_of(ps) {
        Some(l) => l.text.len() > 0 ==> literal_holds(l, q.path),
        None => true,
    }
}

/// The path pattern a stub requires matches the request's path.
pub open spec fn regex_admits(ps: Seq<Predicate>, q: RequestKey) -> bool {
    match regex_of(ps) {
        Some((pattern, case_sensitive)) => regex_cache::regex_found(
            pattern,
            !case_sensitive,
            q.path,
        ),
        None => true,
    }
}

/// The request's JSON body has the hash of the body a stub requires. A body that is not JSON has
/// none to offer, and one without a hash rules nothing out.
pub open spec fn body_admits(ps: Seq<Predicate>, q: RequestKey) -> bool {
    match body_of(ps) {
        Some(h) => match q.body {
            Some(b) => match structural_hash::hash_of(b) {
                Some(k) => k == h,
                None => true,
            },
            None => false,
        },
        None => true,
    }
}

/// The index over a list of stubs.
pub struct StubIndex {
    len: usize,
    path: PathDimension,
    method: MethodDimension,
    literal: LiteralDimension,
    regex: RegexDimension,
    body: BodyHashDimension,
    rejected: Vec<(usize, String)>,
}

impl StubIndex {
    /// Every dimension is valid and spans the same stubs.
    pub closed spec fn wf(&self) -> bool {
        &&& self.path.valid() && self.path.space() == self.len
        &&& self.method.valid() && self.method.space() == self.len
        &&& self.literal.valid() && self.literal.space() == self.len
        &&& self.regex.valid() && self.regex.space() == self.len
        &&& self.body.valid() && self.body.space() == self.len
    }

    /// The index was built over these stubs.
    pub closed spec fn covers(&self, stubs: Seq<StubState>) -> bool {
        &&& self.wf()
        &&& self.len == stubs.len()
        &&& self.literal.covers(stubs)
        &&& self.regex.covers(stubs)
        &&& entry_models(self.rejected@) == notices_of(stubs)
        &&& forall|i: int|
            0 <= i < stubs.len() ==> #[trigger] self.path.anchor(i) == match path_of(
                predicates_of(stubs, i),
            ) {
                Some(t) => Some(structural_hash::lowered(t)),
                None => None,
            }
        &&& forall|i: int|
            0 <= i < stubs.len() ==> #[trigger] self.method.anchor(i) == match method_of(
                predicates_of(stubs, i),
            ) {
                Some(m) => Some(slot_of(m)),
                None => None,
            }
        &&& forall|i: int|
            0 <= i < stubs.len() ==> #[trigger] self.body.anchor(i) == body_of(
                predicates_of(stubs, i),
            )
    }

    /// The stubs whose path literal is not indexed.
    pub closed spec fn literal_skipped(&self) -> Set<int> {
        self.literal.unindexed()
    }

    /// The stubs whose path pattern is not indexed.
    pub closed spec fn regex_skipped(&self) -> Set<int> {
        self.regex.unindexed()
    }

    /// How many stubs the index spans.
    pub closed spec fn spans(&self) -> nat {
        self.len as nat
    }

    /// The candidates among the stubs the index was built over: those that every dimension admits.
    pub open spec fn chosen(&self, stubs: Seq<StubState>, q: RequestKey) -> Set<int> {
        Set::new(
            |i: int|
                {
                    &&& 0 <= i < stubs.len()
                    &&& method_admits(predicates_of(stubs, i), q)
                    &&& path_admits(predicates_of(stubs, i), q)
                    &&& self.literal_skipped().contains(i) || literal_admits(
                        predicates_of(stubs, i),
                        q,
                    )
                    &&& self.regex_skipped().contains(i) || regex_admits(
                        predicates_of(stubs, i),
                        q,
                    )
                    &&& body_admits(predicates_of(stubs, i), q)
                },
        )
    }

    /// The intersection of what the dimensions select.
    spec fn common(&self, q: RequestKey) -> Set<int> {
        self.method.selected(q).intersect(self.path.selected(q)).intersect(
            self.literal.selected(q),
        ).intersect(self.regex.selected(q)).intersect(self.body.selected(q))
    }

    /// The intersection of the dimensions is the candidates of the stubs.
    proof fn lemma_common_is_chosen(&self, stubs: Seq<StubState>, q: RequestKey)
        requires
            self.covers(stubs),
        ensures
            self.common(q) == self.chosen(stubs, q),
    {
        assert forall|i: int| self.common(q).contains(i) <==> self.chosen(stubs, q).contains(i) by {
            if 0 <= i < stubs.len() {
                let ps = predicates_of(stubs, i);
                assert(self.path.anchor(i) == match path_of(ps) {
                    Some(t) => Some(structural_hash::lowered(t)),
                    None => None,
                });
                assert(self.method.anchor(i) == match method_of(ps) {
                    Some(m) => Some(slot_of(m)),
                    None => None,
                });
                assert(self.body.anchor(i) == body_of(ps));
                self.lemma_literal(stubs, q, i);
                self.lemma_regex(stubs, q, i);
            }
        }
        assert(self.common(q) =~= self.chosen(stubs, q));
    }

    /// An index looks at a stub's predicates alone.
    pub proof fn lemma_covers_by_predicates(&self, a: Seq<StubState>, b: Seq<StubState>)
        requires
            self.covers(a),
            a.len() == b.len(),
            forall|i: int|
                0 <= i < a.len() ==> #[trigger] predicates_of(b, i) == predicates_of(a, i),
        ensures
            self.wf(),
            self.covers(b),
    {
        lemma_literal_entries_same(a, b, false);
        lemma_literal_entries_same(a, b, true);
        lemma_pattern_entries_same(a, b, false);
        lemma_pattern_entries_same(a, b, true);
        assert forall|case_sensitive: bool|
            literal_entries(a, case_sensitive) == literal_entries(b, case_sensitive)
                && pattern_entries(a, case_sensitive) == pattern_entries(b, case_sensitive) by {}
        assert(literal_fallback(a) =~= literal_fallback(b));
        assert(pattern_fallback(a) =~= pattern_fallback(b));
    }

    /// What the index leaves to full evaluation, and what it gives notice of, follows from the stubs
    /// it was built over.
    pub proof fn law_what_falls_back(&self, stubs: Seq<StubState>)
        requires
            self.covers(stubs),
        ensures
            self.literal_skipped() == literal_fallback(stubs),
            self.regex_skipped() == pattern_fallback(stubs),
            entry_models(self.notices()) == notices_of(stubs),
    {
    }

    proof fn lemma_literal(&self, stubs: Seq<StubState>, q: RequestKey, i: int)
        requires
            self.covers(stubs),
            0 <= i < stubs.len(),
        ensures
            self.literal.selected(q).contains(i) <==> self.literal_skipped().contains(i)
                || literal_admits(predicates_of(stubs, i), q),
    {
        let ps = predicates_of(stubs, i);
        let d = self.literal;
        if !d.unindexed().contains(i) {
            let l = literal_of(ps)->0;
            let set = d.class(l.case_sensitive)->0;
            let entries = literal_entries(stubs, l.case_sensitive);
            lemma_literal_entries(stubs, l.case_sensitive, (i, l));
            assert(literal_fallback(stubs).contains(i) == d.unindexed().contains(i));
            let p = choose|p: int| 0 <= p < entries.len() && entries[p] == (i, l);
            assert(set.entry(p) == (i, l));
            if literal_holds(l, q.path) {
                assert(set.entry(p).0 == i);
                assert(set.hits(i, q.path));
                assert(set_hits(d.class(l.case_sensitive), i, q.path));
            }
            assert forall|b: bool| #[trigger]
                set_hits(d.class(b), i, q.path) implies literal_holds(l, q.path) by {
                let other = d.class(b)->0;
                let w = choose|w: int|
                    0 <= w < other.count() && (#[trigger] other.entry(w)).0 == i && literal_holds(
                        other.entry(w).1,
                        q.path,
                    );
                let theirs = literal_entries(stubs, b);
                assert(other.entry(w) == theirs[w]);
                assert(theirs.contains(theirs[w]));
                lemma_literal_entries(stubs, b, theirs[w]);
            }
        }
    }

    proof fn lemma_regex(&self, stubs: Seq<StubState>, q: RequestKey, i: int)
        requires
            self.covers(stubs),
            0 <= i < stubs.len(),
        ensures
            self.regex.selected(q).contains(i) <==> self.regex_skipped().contains(i)
                || regex_admits(predicates_of(stubs, i), q),
    {
        let ps = predicates_of(stubs, i);
        let d = self.regex;
        if !d.unindexed().contains(i) {
            let (pattern, case_sensitive) = regex_of(ps)->0;
            let set = d.class(case_sensitive)->0;
            let entries = patterns_indexed(stubs, case_sensitive);
            assert(pattern_fallback(stubs).contains(i) == d.unindexed().contains(i));
            assert(entries.contains((i, pattern)));
            let p = choose|p: int| 0 <= p < entries.len() && entries[p] == (i, pattern);
            assert(set.entry(p) == (i, pattern, case_sensitive));
            if regex_cache::regex_found(pattern, !case_sensitive, q.path) {
                assert(set.entry(p).0 == i);
                assert(set.hits(i, q.path));
                assert(patterns_hit(d.class(case_sensitive), i, q.path));
            }
            assert forall|b: bool| #[trigger]
                patterns_hit(d.class(b), i, q.path) implies regex_cache::regex_found(
                pattern,
                !case_sensitive,
                q.path,
            ) by {
                let other = d.class(b)->0;
                let w = choose|w: int|
                    0 <= w < other.count() && (#[trigger] other.entry(w)).0 == i
                        && regex_cache::regex_found(other.entry(w).1, !other.entry(w).2, q.path);
                let theirs = patterns_indexed(stubs, b);
                assert(other.entry(w) == (theirs[w].0, theirs[w].1, b));
                assert(theirs.contains(theirs[w]));
                lemma_falls_back(pattern_entries(stubs, b), !b, theirs[w]);
                lemma_pattern_entries(stubs, b, theirs[w]);
            }
        }
    }

    /// Builds every dimension over the stubs.
    pub fn build(stubs: &Vec<StubState>) -> (r: Self)
        ensures
            r.wf(),
            r.covers(stubs@),
            r.literal_skipped() == literal_fallback(stubs@),
            r.regex_skipped() == pattern_fallback(stubs@),
            entry_models(r.notices()) == notices_of(stubs@),
    {
        let path = PathDimension::build(stubs);
        let method = MethodDimension::build(stubs);
        let literal = LiteralDimension::build(stubs);
        let (regex, rejected) = RegexDimension::build(stubs);
        let body = BodyHashDimension::build(stubs);
        StubIndex { len: stubs.len(), path, method, literal, regex, body, rejected }
    }

    /// The stubs whose path pattern was rejected by the build, with the pattern as a notice shows
    /// it.
    pub closed spec fn notices(&self) -> Seq<(usize, String)> {
        self.rejected@
    }

    /// The stubs whose path pattern was rejected by the build, with the pattern as a notice shows
    /// it.
    pub fn rejected(&self) -> (r: &Vec<(usize, String)>)
        ensures
            r@ == self.notices(),
    {
        &self.rejected
    }

    /// How many stubs the index spans.
    pub fn len(&self) -> (n: usize)
        ensures
            n == self.spans(),
            forall|stubs: Seq<StubState>| #[trigger] self.covers(stubs) ==> n == stubs.len(),
    {
        self.len
    }

    /// Narrows the candidates by one dimension, starting from all stubs. A dimension that indexes
    /// nothing is skipped. Says whether any candidate is left.
    fn fold_in<D: Dimension>(
        dimension: &D,
        request: &DimensionRequest<'_>,
        acc: &mut CandidateBits,
        seeded: &mut bool,
        len: usize,
    ) -> (r: bool)
        requires
            dimension.valid(),
            dimension.space() == len,
            old(acc).wf(),
            old(acc).space() == len,
        ensures
            final(acc).wf(),
            final(acc).space() == len,
            gathered(*final(acc), *final(seeded)) == gathered(*old(acc), *old(seeded)).intersect(
                dimension.selected(request@),
            ),
            !r ==> gathered(*final(acc), *final(seeded)) == Set::<int>::empty(),
    {
        proof {
            acc.lemma_members_in_space();
        }
        if !dimension.prunes() {
            proof {
                assert(dimension.selected(request@) == all_ids(len as nat));
                assert(gathered(*acc, *seeded).intersect(all_ids(len as nat)) =~= gathered(
                    *acc,
                    *seeded,
                ));
            }
            return true;
        }
        if *seeded {
            let mut scratch: CandidateBits = CandidateBits::zeros(len);
            dimension.select(request, &mut scratch);
            acc.intersect_with(&scratch);
        } else {
            let ghost before = gathered(*acc, *seeded);
            dimension.select(request, acc);
            *seeded = true;
            proof {
                acc.lemma_members_in_space();
                assert(acc@ =~= before.intersect(dimension.selected(request@)));
            }
        }
        !acc.is_empty()
    }

    /// The candidates for a request, in the order of cost: method, exact path, literals, patterns,
    /// body. The rest is left out as soon as no candidate is left.
    pub fn candidates(&self, request: &DimensionRequest<'_>) -> (r: CandidateBits)
        requires
            self.wf(),
        ensures
            r.wf(),
            r.space() == self.spans(),
            forall|stubs: Seq<StubState>| #[trigger]
                self.covers(stubs) ==> r@ == self.chosen(stubs, request@),
    {
        let mut acc: CandidateBits = CandidateBits::zeros(self.len);
        let mut seeded: bool = false;
        let ghost q = request@;
        let ghost common = self.common(q);
        proof {
            assert(all_ids(self.len as nat).intersect(self.method.selected(q))
                =~= self.method.selected(q));
        }
        if Self::fold_in(&self.method, request, &mut acc, &mut seeded, self.len) && Self::fold_in(
            &self.path,
            request,
            &mut acc,
            &mut seeded,
            self.len,
        ) && Self::fold_in(&self.literal, request, &mut acc, &mut seeded, self.len)
            && Self::fold_in(&self.regex, request, &mut acc, &mut seeded, self.len) {
            Self::fold_in(&self.body, request, &mut acc, &mut seeded, self.len);
        }
        proof {
            assert(gathered(acc, seeded) =~= common);
            assert forall|stubs: Seq<StubState>| #[trigger] self.covers(stubs) implies common
                == self.chosen(stubs, q) by {
                self.lemma_common_is_chosen(stubs, q);
            }
        }
        if seeded {
            acc
        } else {
            CandidateBits::all(self.len)
        }
    }
}

/// What was gathered so far: every stub before any dimension ran.
spec fn gathered(acc: CandidateBits, seeded: bool) -> Set<int> {
    if seeded {
        acc@
    } else {
        all_ids(acc.space())
    }
}

/// A short pattern is shown as it is. Of a long one as much is shown as fits without cutting a
/// character, and not a character less; and how long it is in all.
pub proof fn law_long_patterns_are_cut(p: Seq<char>)
    ensures
        ({
            let total = vstd::utf8::encode_utf8(p).len();
            &&& total <= 80 ==> preview_of(p) == p
            &&& total > 80 ==> exists|k: int|
                0 <= k < p.len() && preview_of(p) == #[trigger] p.take(k) + "\u{2026} ("@
                    + text::decimal(total) + " bytes total)"@ && vstd::utf8::encode_utf8(
                    p.take(k),
                ).len() <= 80 && vstd::utf8::encode_utf8(p.take(k + 1)).len() > 80
        }),
{
    let total = vstd::utf8::encode_utf8(p).len();
    if total > 80 {
        assert(p.take(p.len() as int) =~= p);
        let k = lemma_longest(p, p.len() as int, 80);
        assert(longest_within(p, 80) == p.take(k));
    }
}

proof fn lemma_longest(p: Seq<char>, n: int, limit: int) -> (k: int)
    requires
        0 <= n <= p.len(),
        0 <= limit < vstd::utf8::encode_utf8(p.take(n)).len(),
    ensures
        0 <= k < n,
        longest_within(p.take(n), limit) == p.take(k),
        vstd::utf8::encode_utf8(p.take(k)).len() <= limit,
        vstd::utf8::encode_utf8(p.take(k + 1)).len() > limit,
    decreases n,
{
    if n == 0 {
        assert(p.take(0) =~= Seq::<char>::empty());
        assert(vstd::utf8::encode_utf8(p.take(0)) =~= Seq::<u8>::empty());
        0
    } else {
        assert(p.take(n).drop_last() =~= p.take(n - 1));
        if vstd::utf8::encode_utf8(p.take(n - 1)).len() <= limit {
            assert(longest_within(p.take(n - 1), limit) == p.take(n - 1));
            n - 1
        } else {
            lemma_longest(p, n - 1, limit)
        }
    }
}

/// Every pattern is either built by itself or rejected by itself, never both, and each list keeps
/// the order: what is in them of two lists together is what is in them of each.
pub proof fn law_patterns_are_parted(
    a: Seq<(int, Seq<char>)>,
    b: Seq<(int, Seq<char>)>,
    folds: bool,
    e: (int, Seq<char>),
)
    ensures
        built_alone(a + b, folds) == built_alone(a, folds) + built_alone(b, folds),
        rejected_alone(a + b, folds) == rejected_alone(a, folds) + rejected_alone(b, folds),
        buildable(seq![e.1], folds) ==> built_alone(seq![e], folds) == seq![e] && rejected_alone(
            seq![e],
            folds,
        ).len() == 0,
        !buildable(seq![e.1], folds) ==> rejected_alone(seq![e], folds) == seq![e] && built_alone(
            seq![e],
            folds,
        ).len() == 0,
    decreases b.len(),
{
    let none = Seq::<(int, Seq<char>)>::empty();
    let one = seq![e];
    assert(one.drop_last() =~= none);
    assert(one.last() == e);
    assert(built_alone(one.drop_last(), folds) =~= none);
    assert(rejected_alone(one.drop_last(), folds) =~= none);
    if buildable(seq![e.1], folds) {
        assert(built_alone(one, folds) =~= one);
    } else {
        assert(rejected_alone(one, folds) =~= one);
    }
    if b.len() == 0 {
        assert(a + b =~= a);
        assert(built_alone(a, folds) + built_alone(b, folds) =~= built_alone(a, folds));
        assert(rejected_alone(a, folds) + rejected_alone(b, folds) =~= rejected_alone(a, folds));
    } else {
        law_patterns_are_parted(a, b.drop_last(), folds, e);
        assert((a + b).drop_last() =~= a + b.drop_last());
        assert((a + b).last() == b.last());
        assert(built_alone(a + b, folds) =~= built_alone(a, folds) + built_alone(b, folds));
        assert(rejected_alone(a + b, folds) =~= rejected_alone(a, folds) + rejected_alone(
            b,
            folds,
        ));
    }
}

/// Where all patterns of a case class can be built together, all are indexed, none falls back and
/// no notice is given. Where they cannot, every pattern that is rejected by itself falls back, and a
/// notice is given of exactly those.
pub proof fn law_rejected_patterns_fall_back(entries: Seq<(int, Seq<char>)>, folds: bool, i: int)
    ensures
        buildable(patterns_of(entries), folds) ==> automaton_entries(entries, folds) == entries
            && fallback_entries(entries, folds).len() == 0 && noticed_entries(entries, folds).len()
            == 0,
        entries.len() > 0 && !buildable(patterns_of(entries), folds) ==> noticed_entries(
            entries,
            folds,
        ) == rejected_alone(entries, folds) && forall|e: (int, Seq<char>)| #[trigger]
            rejected_alone(entries, folds).contains(e) ==> fallback_entries(entries, folds).contains(
                e,
            ),
        0 <= i < shown_entries(noticed_entries(entries, folds)).len() ==> shown_entries(
            noticed_entries(entries, folds),
        )[i] == (
            noticed_entries(entries, folds)[i].0,
            preview_of(noticed_entries(entries, folds)[i].1),
        ),
{
    let rejected = rejected_alone(entries, folds);
    let kept = built_alone(entries, folds);
    assert forall|e: (int, Seq<char>)| #[trigger] rejected.contains(e) implies (rejected
        + kept).contains(e) by {
        let k = choose|k: int| 0 <= k < rejected.len() && rejected[k] == e;
        assert((rejected + kept)[k] == e);
    }
}

} // verus!
