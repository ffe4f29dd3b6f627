//! Predicates, and what the matcher has to ask others for.
//!
//! Most predicates are decided from the request alone. A JSONPath or XPath selector and an
//! `inject` script are answered elsewhere: evaluation names what it needs as a [`Lookup`] and is
//! run again with the [`Finding`].

use crate::json::JsonObject;
use crate::lookup;
use crate::text;
use vstd::prelude::*;

verus! {

/// Where a predicate's body value is taken from.
#[derive(Debug)]
pub enum PredicateSelector {
    JsonPath { selector: String },
    XPath { selector: String, namespaces: Vec<(String, String)> },
}

/// How a predicate compares.
#[derive(Debug)]
pub struct PredicateParameters {
    /// Whether case matters in values; it does not by default.
    pub case_sensitive: Option<bool>,
    /// Whether case matters in keys; as in values by default.
    pub key_case_sensitive: Option<bool>,
    /// A pattern whose matches are erased from actual values; empty for none.
    pub except: String,
    /// Where the body value is taken from; the whole body by default.
    pub selector: Option<PredicateSelector>,
}

/// What a predicate asks for.
#[derive(Debug)]
pub enum PredicateOperation {
    Equals(JsonObject),
    DeepEquals(JsonObject),
    Contains(JsonObject),
    StartsWith(JsonObject),
    EndsWith(JsonObject),
    Matches(JsonObject),
    Exists(JsonObject),
    Not(Box<Predicate>),
    Or(Vec<Predicate>),
    And(Vec<Predicate>),
    Inject(String),
}

/// A condition on requests.
#[derive(Debug)]
pub struct Predicate {
    pub parameters: PredicateParameters,
    pub operation: PredicateOperation,
}

impl PredicateParameters {
    /// Whether case matters in values.
    pub open spec fn value_case(&self) -> bool {
        match self.case_sensitive {
            Some(b) => b,
            None => false,
        }
    }

    /// Whether case matters in keys.
    pub open spec fn key_case(&self) -> bool {
        match self.key_case_sensitive {
            Some(b) => b,
            None => self.value_case(),
        }
    }

    /// Values are compared as the request has them: nothing is erased and nothing selected.
    pub open spec fn value_preserving(&self) -> bool {
        self.except@.len() == 0 && self.selector is None
    }

    /// A copy.
    pub fn copy(&self) -> (r: Self)
        ensures
            same_parameters(r, *self),
    {
        PredicateParameters {
            case_sensitive: self.case_sensitive,
            key_case_sensitive: self.key_case_sensitive,
            except: self.except.clone(),
            selector: match &self.selector {
                Some(s) => Some(s.copy()),
                None => None,
            },
        }
    }
}

impl Default for PredicateParameters {
    /// Case ignored, nothing erased, the whole body.
    fn default() -> (r: Self)
        ensures
            r.case_sensitive is None,
            r.key_case_sensitive is None,
            r.except@.len() == 0,
            r.selector is None,
    {
        PredicateParameters {
            case_sensitive: None,
            key_case_sensitive: None,
            except: String::new(),
            selector: None,
        }
    }
}

impl PredicateSelector {
    /// A copy.
    pub fn copy(&self) -> (r: Self)
        ensures
            same_selector(r, *self),
    {
        match self {
            PredicateSelector::JsonPath { selector } => PredicateSelector::JsonPath {
                selector: selector.clone(),
            },
            PredicateSelector::XPath { selector, namespaces } => PredicateSelector::XPath {
                selector: selector.clone(),
                namespaces: lookup::copy_list(namespaces),
            },
        }
    }
}

/// Two selectors ask for the same value.
pub open spec fn same_selector(a: PredicateSelector, b: PredicateSelector) -> bool {
    match (a, b) {
        (
            PredicateSelector::JsonPath { selector: s },
            PredicateSelector::JsonPath { selector: t },
        ) => s@ == t@,
        (
            PredicateSelector::XPath { selector: s, namespaces: m },
            PredicateSelector::XPath { selector: t, namespaces: n },
        ) => s@ == t@ && lookup::pairs(m@) == lookup::pairs(n@),
        _ => false,
    }
}

/// Two optional selectors ask for the same value.
pub open spec fn same_optional_selector(
    a: Option<PredicateSelector>,
    b: Option<PredicateSelector>,
) -> bool {
    match (a, b) {
        (Some(s), Some(t)) => same_selector(s, t),
        (None, None) => true,
        _ => false,
    }
}

/// Two sets of parameters are the same.
pub open spec fn same_parameters(a: PredicateParameters, b: PredicateParameters) -> bool {
    &&& a.case_sensitive == b.case_sensitive
    &&& a.key_case_sensitive == b.key_case_sensitive
    &&& a.except@ == b.except@
    &&& same_optional_selector(a.selector, b.selector)
}

/// Two operations are the same: the same operation, on equal fields or on the same predicates.
pub open spec fn same_operation(a: PredicateOperation, b: PredicateOperation) -> bool
    decreases a,
{
    match (a, b) {
        (PredicateOperation::Equals(x), PredicateOperation::Equals(y)) => same_fields(x, y),
        (PredicateOperation::DeepEquals(x), PredicateOperation::DeepEquals(y)) => same_fields(x, y),
        (PredicateOperation::Contains(x), PredicateOperation::Contains(y)) => same_fields(x, y),
        (PredicateOperation::StartsWith(x), PredicateOperation::StartsWith(y)) => same_fields(x, y),
        (PredicateOperation::EndsWith(x), PredicateOperation::EndsWith(y)) => same_fields(x, y),
        (PredicateOperation::Matches(x), PredicateOperation::Matches(y)) => same_fields(x, y),
        (PredicateOperation::Exists(x), PredicateOperation::Exists(y)) => same_fields(x, y),
        (PredicateOperation::Not(x), PredicateOperation::Not(y)) => same_predicate(*x, *y),
        (PredicateOperation::Or(x), PredicateOperation::Or(y)) => same_predicates(x@, y@),
        (PredicateOperation::And(x), PredicateOperation::And(y)) => same_predicates(x@, y@),
        (PredicateOperation::Inject(x), PredicateOperation::Inject(y)) => x@ == y@,
        _ => false,
    }
}

/// Two predicates are the same.
pub open spec fn same_predicate(a: Predicate, b: Predicate) -> bool
    decreases a,
{
    same_parameters(a.parameters, b.parameters) && same_operation(a.operation, b.operation)
}

/// Two lists hold the same predicates in the same order.
pub open spec fn same_predicates(a: Seq<Predicate>, b: Seq<Predicate>) -> bool
    decreases a,
{
    a.len() == b.len() && forall|i: int| 0 <= i < a.len() ==> same_predicate(#[trigger] a[i], b[i])
}

/// Two field maps are equal: as JSON objects are, whatever the order of their members.
pub open spec fn same_fields(a: JsonObject, b: JsonObject) -> bool {
    crate::json::json_same(
        crate::json::JsonModel::Object(a@),
        crate::json::JsonModel::Object(b@),
    )
}

fn selectors_same(a: &Option<PredicateSelector>, b: &Option<PredicateSelector>) -> (r: bool)
    ensures
        r == same_optional_selector(*a, *b),
{
    match (a, b) {
        (
            Some(PredicateSelector::JsonPath { selector: s }),
            Some(PredicateSelector::JsonPath { selector: t }),
        ) => text::same_text(s.as_str(), t.as_str()),
        (
            Some(PredicateSelector::XPath { selector: s, namespaces: m }),
            Some(PredicateSelector::XPath { selector: t, namespaces: n }),
        ) => text::same_text(s.as_str(), t.as_str()) && lookup::same_list(m, n),
        (None, None) => true,
        _ => false,
    }
}

fn flags_same(a: Option<bool>, b: Option<bool>) -> (r: bool)
    ensures
        r == (a == b),
{
    match (a, b) {
        (Some(x), Some(y)) => x == y,
        (None, None) => true,
        _ => false,
    }
}

fn operations_same(a: &PredicateOperation, b: &PredicateOperation) -> (r: bool)
    ensures
        r == same_operation(*a, *b),
    decreases a,
{
    match (a, b) {
        (PredicateOperation::Equals(x), PredicateOperation::Equals(y)) => x.same(y),
        (PredicateOperation::DeepEquals(x), PredicateOperation::DeepEquals(y)) => x.same(y),
        (PredicateOperation::Contains(x), PredicateOperation::Contains(y)) => x.same(y),
        (PredicateOperation::StartsWith(x), PredicateOperation::StartsWith(y)) => x.same(y),
        (PredicateOperation::EndsWith(x), PredicateOperation::EndsWith(y)) => x.same(y),
        (PredicateOperation::Matches(x), PredicateOperation::Matches(y)) => x.same(y),
        (PredicateOperation::Exists(x), PredicateOperation::Exists(y)) => x.same(y),
        (PredicateOperation::Not(x), PredicateOperation::Not(y)) => predicate_same(x, y),
        (PredicateOperation::Or(x), PredicateOperation::Or(y)) => predicates_same(x, y),
        (PredicateOperation::And(x), PredicateOperation::And(y)) => predicates_same(x, y),
        (PredicateOperation::Inject(x), PredicateOperation::Inject(y)) => text::same_text(
            x.as_str(),
            y.as_str(),
        ),
        _ => false,
    }
}

/// Whether two predicates are the same.
pub fn predicate_same(a: &Predicate, b: &Predicate) -> (r: bool)
    ensures
        r == same_predicate(*a, *b),
    decreases a,
{
    flags_same(a.parameters.case_sensitive, b.parameters.case_sensitive) && flags_same(
        a.parameters.key_case_sensitive,
        b.parameters.key_case_sensitive,
    ) && text::same_text(a.parameters.except.as_str(), b.parameters.except.as_str())
        && selectors_same(&a.parameters.selector, &b.parameters.selector) && operations_same(
        &a.operation,
        &b.operation,
    )
}

/// Whether two lists hold the same predicates in the same order.
pub fn predicates_same(a: &Vec<Predicate>, b: &Vec<Predicate>) -> (r: bool)
    ensures
        r == same_predicates(a@, b@),
    decreases a@,
{
    if a.len() != b.len() {
        return false;
    }
    let mut i: usize = 0;
    while i < a.len()
        invariant
            i <= a@.len() == b@.len(),
            forall|k: int| 0 <= k < i ==> same_predicate(#[trigger] a@[k], b@[k]),
        decreases a@.len() - i,
    {
        proof {
            assert(decreases_to!(a@ => a@[i as int]));
        }
        if !predicate_same(&a[i], &b[i]) {
            return false;
        }
        i += 1;
    }
    true
}

/// Something evaluation needs answered from outside.
#[derive(Debug)]
pub enum Lookup {
    /// The value a JSONPath selects from the request body.
    JsonPath(String),
    /// The value an XPath selects from the request body, under these namespaces.
    XPath(String, Vec<(String, String)>),
    /// What an `inject` script says of the request.
    Inject(String),
}

/// A lookup as contracts see it.
pub enum LookupModel {
    JsonPath(Seq<char>),
    XPath(Seq<char>, Seq<(Seq<char>, Seq<char>)>),
    Inject(Seq<char>),
}

/// What a lookup was answered with.
#[derive(Debug)]
pub enum Answer {
    /// The text a selector selected, or that it selected nothing.
    Extracted(Option<String>),
    /// What a script said, or why it failed.
    Injected(Result<bool, String>),
}

/// An answer as contracts see it.
pub enum AnswerModel {
    Extracted(Option<Seq<char>>),
    Injected(Result<bool, Seq<char>>),
}

/// A lookup with its answer.
#[derive(Debug)]
pub struct Finding {
    pub lookup: Lookup,
    pub answer: Answer,
}

/// Why matching could not go on.
#[derive(Debug)]
pub enum MatchError {
    /// An `inject` script failed; the request fails with it.
    Inject(String),
    /// A scenario's state could not be read.
    Store(String),
    /// An answer is missing.
    Unresolved(Lookup),
}

/// A matching error as contracts see it.
pub enum MatchErrorModel {
    Inject(Seq<char>),
    Store(Seq<char>),
    Unresolved(LookupModel),
}

impl Lookup {
    /// The lookup as contracts see it.
    pub open spec fn view(&self) -> LookupModel {
        match self {
            Lookup::JsonPath(s) => LookupModel::JsonPath(s@),
            Lookup::XPath(s, n) => LookupModel::XPath(s@, lookup::pairs(n@)),
            Lookup::Inject(s) => LookupModel::Inject(s@),
        }
    }

    /// Whether two lookups ask the same.
    pub fn same(&self, other: &Lookup) -> (r: bool)
        ensures
            r == (self@ == other@),
    {
        match (self, other) {
            (Lookup::JsonPath(a), Lookup::JsonPath(b)) => text::same_text(a.as_str(), b.as_str()),
            (Lookup::XPath(a, m), Lookup::XPath(b, n)) => {
                text::same_text(a.as_str(), b.as_str()) && lookup::same_list(m, n)
            },
            (Lookup::Inject(a), Lookup::Inject(b)) => text::same_text(a.as_str(), b.as_str()),
            _ => false,
        }
    }
}

impl Answer {
    /// The answer as contracts see it.
    pub open spec fn view(&self) -> AnswerModel {
        match self {
            Answer::Extracted(x) => AnswerModel::Extracted(text::optional_text(*x)),
            Answer::Injected(Ok(b)) => AnswerModel::Injected(Ok(*b)),
            Answer::Injected(Err(e)) => AnswerModel::Injected(Err(e@)),
        }
    }
}

impl MatchError {
    /// The error as contracts see it.
    pub open spec fn view(&self) -> MatchErrorModel {
        match self {
            MatchError::Inject(s) => MatchErrorModel::Inject(s@),
            MatchError::Store(s) => MatchErrorModel::Store(s@),
            MatchError::Unresolved(l) => MatchErrorModel::Unresolved(l@),
        }
    }
}

/// The first answer found for a lookup.
pub open spec fn answer_for(findings: Seq<Finding>, want: LookupModel) -> Option<AnswerModel>
    decreases findings.len(),
{
    if findings.len() == 0 {
        None
    } else if findings[0].lookup@ == want {
        Some(findings[0].answer@)
    } else {
        answer_for(findings.drop_first(), want)
    }
}

/// Looks an answer up.
pub fn find_answer<'a>(findings: &'a Vec<Finding>, want: &Lookup) -> (r: Option<&'a Answer>)
    ensures
        (match r {
            Some(a) => answer_for(findings@, want@) == Some(a@),
            None => answer_for(findings@, want@) is None,
        }),
{
    let mut i: usize = 0;
    proof {
        assert(findings@.skip(0) =~= findings@);
    }
    while i < findings.len()
        invariant
            i <= findings@.len(),
            answer_for(findings@, want@) == answer_for(findings@.skip(i as int), want@),
        decreases findings@.len() - i,
    {
        proof {
            assert(findings@.skip(i as int).drop_first() =~= findings@.skip(i + 1));
        }
        if findings[i].lookup.same(want) {
            return Some(&findings[i].answer);
        }
        i += 1;
    }
    None
}

/// Case does not matter in values unless that is asked for, and matters in keys as in values unless
/// something else is said of keys.
pub proof fn law_case_matters_where_asked(p: PredicateParameters)
    ensures
        p.value_case() <==> p.case_sensitive == Some(true),
        p.key_case_sensitive is None ==> p.key_case() == p.value_case(),
        p.key_case_sensitive matches Some(b) ==> p.key_case() == b,
{
}

/// A lookup is answered by the first finding that asks the same, and by none where there is none
/// such.
pub proof fn law_the_first_finding_answers(findings: Seq<Finding>, want: LookupModel, at: int)
    ensures
        0 <= at < findings.len() && findings[at].lookup@ == want && (forall|i: int|
            0 <= i < at ==> (#[trigger] findings[i]).lookup@ != want) ==> answer_for(findings, want)
            == Some(findings[at].answer@),
        (forall|i: int| 0 <= i < findings.len() ==> (#[trigger] findings[i]).lookup@ != want)
            ==> answer_for(findings, want) is None,
    decreases findings.len(),
{
    if findings.len() > 0 {
        let rest = findings.drop_first();
        law_the_first_finding_answers(rest, want, at - 1);
        assert(forall|i: int| 0 <= i < rest.len() ==> #[trigger] rest[i] == findings[i + 1]);
        if findings[0].lookup@ != want {
            if 0 < at < findings.len() && forall|i: int|
                0 <= i < at ==> (#[trigger] findings[i]).lookup@ != want {
                assert forall|i: int| 0 <= i < at - 1 implies (#[trigger] rest[i]).lookup@
                    != want by {
                    assert(rest[i] == findings[i + 1]);
                }
            }
            if forall|i: int| 0 <= i < findings.len() ==> (#[trigger] findings[i]).lookup@ != want {
                assert forall|i: int| 0 <= i < rest.len() implies (#[trigger] rest[i]).lookup@
                    != want by {
                    assert(rest[i] == findings[i + 1]);
                }
            }
        } else if at > 0 && at < findings.len() {
            assert(!(forall|i: int| 0 <= i < at ==> (#[trigger] findings[i]).lookup@ != want)) by {
                assert(findings[0].lookup@ == want);
            }
        }
    }
}

/// Predicates are the same only where they compare in the same way and ask for the same: by the
/// same operation, with the same text of a script, the same predicate negated, or the same
/// predicates in the same order.
pub proof fn law_same_predicates_agree_in_everything(a: Predicate, b: Predicate)
    requires
        same_predicate(a, b),
    ensures
        a.parameters.case_sensitive == b.parameters.case_sensitive,
        a.parameters.key_case_sensitive == b.parameters.key_case_sensitive,
        a.parameters.except@ == b.parameters.except@,
        a.parameters.selector is Some <==> b.parameters.selector is Some,
        a.parameters.selector matches Some(PredicateSelector::JsonPath { selector: s }) ==> (
        b.parameters.selector matches Some(PredicateSelector::JsonPath { selector: t }) && s@
            == t@),
        a.parameters.selector matches Some(
            PredicateSelector::XPath { selector: s, namespaces: m },
        ) ==> (b.parameters.selector matches Some(
            PredicateSelector::XPath { selector: t, namespaces: n },
        ) && s@ == t@ && lookup::pairs(m@) == lookup::pairs(n@)),
        a.operation is Equals <==> b.operation is Equals,
        a.operation is DeepEquals <==> b.operation is DeepEquals,
        a.operation is Contains <==> b.operation is Contains,
        a.operation is StartsWith <==> b.operation is StartsWith,
        a.operation is EndsWith <==> b.operation is EndsWith,
        a.operation is Matches <==> b.operation is Matches,
        a.operation is Exists <==> b.operation is Exists,
        a.operation is Not <==> b.operation is Not,
        a.operation is Or <==> b.operation is Or,
        a.operation is And <==> b.operation is And,
        a.operation is Inject <==> b.operation is Inject,
        a.operation matches PredicateOperation::Inject(s) ==> s@ == b.operation->Inject_0@,
        a.operation matches PredicateOperation::Not(p) ==> same_predicate(*p, *b.operation->Not_0),
        a.operation matches PredicateOperation::Or(ps) ==> ps@.len() == b.operation->Or_0@.len()
            && same_predicates(ps@, b.operation->Or_0@),
        a.operation matches PredicateOperation::And(ps) ==> ps@.len() == b.operation->And_0@.len()
            && same_predicates(ps@, b.operation->And_0@),
        a.operation matches PredicateOperation::Equals(f) ==> crate::json::json_same(
            crate::json::JsonModel::Object(f@),
            crate::json::JsonModel::Object(b.operation->Equals_0@),
        ),
        a.operation matches PredicateOperation::DeepEquals(f) ==> crate::json::json_same(
            crate::json::JsonModel::Object(f@),
            crate::json::JsonModel::Object(b.operation->DeepEquals_0@),
        ),
{
    assert(same_operation(a.operation, b.operation));
    if a.operation is Or {
        law_same_lists_agree_place_by_place(a.operation->Or_0@, b.operation->Or_0@, 0);
    }
    if a.operation is And {
        law_same_lists_agree_place_by_place(a.operation->And_0@, b.operation->And_0@, 0);
    }
}

/// Lists of predicates are the same only where they are as long and the same place by place.
pub proof fn law_same_lists_agree_place_by_place(a: Seq<Predicate>, b: Seq<Predicate>, i: int)
    ensures
        same_predicates(a, b) ==> a.len() == b.len(),
        same_predicates(a, b) && 0 <= i < a.len() ==> same_predicate(a[i], b[i]),
        a.len() == 0 && b.len() == 0 ==> same_predicates(a, b),
{
}

} // verus!
