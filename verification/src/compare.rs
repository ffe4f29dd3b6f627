//! How an expected value is held against an actual one.
//!
//! A [`Comparator`] is one predicate's rule: the relation, whether case matters in values and in
//! keys, whether extra members are allowed, and what is erased from the actual text first.

use crate::json;
use crate::json::{Json, JsonModel, JsonObject};
use crate::lookup;
use crate::regex_cache;
use crate::regex_cache::RegexCache;
use crate::text;
use regex::Regex;
use std::sync::Arc;
use vstd::prelude::*;

verus! {

/// The relation a predicate asks for between expected and actual text.
#[derive(Clone, Copy, Debug, PartialEq, Eq, Structural)]
pub enum Relation {
    Equals,
    Contains,
    StartsWith,
    EndsWith,
    Matches,
}

/// A comparison rule as contracts see it. `except` is the pattern whose matches are erased.
pub struct Rule {
    pub relation: Relation,
    pub case_sensitive: bool,
    pub key_case_sensitive: bool,
    pub deep: bool,
    pub except: Option<Seq<char>>,
}

/// The pattern that is erased from actual values: none where it is empty or does not compile.
pub open spec fn effective_except(pattern: Seq<char>) -> Option<Seq<char>> {
    if pattern.len() > 0 && regex_cache::regex_compiles(pattern, false) {
        Some(pattern)
    } else {
        None
    }
}

/// An actual text with the excepted matches erased.
pub open spec fn excepted(rule: Rule, actual: Seq<char>) -> Seq<char> {
    match rule.except {
        Some(pattern) => regex_cache::regex_erased(pattern, false, actual),
        None => actual,
    }
}

/// Whether the relation holds between an expected and an actual text. A pattern that does not
/// compile matches nothing.
pub open spec fn related(rule: Rule, expected: Seq<char>, actual: Seq<char>) -> bool {
    match rule.relation {
        Relation::Equals => text::text_eq(expected, actual, rule.case_sensitive),
        Relation::Contains => text::text_contains(actual, expected, rule.case_sensitive),
        Relation::StartsWith => text::text_starts_with(actual, expected, rule.case_sensitive),
        Relation::EndsWith => text::text_ends_with(actual, expected, rule.case_sensitive),
        Relation::Matches => regex_cache::regex_compiles(expected, !rule.case_sensitive)
            && regex_cache::regex_found(expected, !rule.case_sensitive, actual),
    }
}

/// Whether the relation holds once the excepted matches are erased.
pub open spec fn leaf_holds(rule: Rule, expected: Seq<char>, actual: Seq<char>) -> bool {
    related(rule, expected, excepted(rule, actual))
}

/// Whether an expected JSON value holds against an actual text.
///
/// An expected object or array reads the text as JSON and holds member by member; anything else is
/// a leaf, compared as text. Under `deep`, an object has no members beyond the expected ones.
pub open spec fn json_holds(rule: Rule, expected: JsonModel, actual: Seq<char>) -> bool
    decreases expected,
{
    match expected {
        JsonModel::Object(want) => match json::json_read(actual) {
            Some(JsonModel::Object(have)) => {
                &&& rule.deep ==> want.len() == have.len()
                &&& forall|i: int|
                    0 <= i < want.len() ==> match lookup::find_entry(
                        have,
                        (#[trigger] want[i]).0,
                        rule.key_case_sensitive,
                    ) {
                        Some(v) => json_holds(rule, want[i].1, json::leaf_text(v)),
                        None => false,
                    }
            },
            _ => false,
        },
        JsonModel::Array(want) => match json::json_read(actual) {
            Some(JsonModel::Array(have)) => {
                &&& want.len() == have.len()
                &&& forall|i: int|
                    0 <= i < want.len() ==> json_holds(
                        rule,
                        #[trigger] want[i],
                        json::leaf_text(have[i]),
                    )
            },
            _ => false,
        },
        _ => leaf_holds(rule, json::leaf_text(expected), actual),
    }
}

/// Whether an expected JSON value holds against an actual text that was read as `read`.
pub open spec fn holds_read(
    rule: Rule,
    expected: JsonModel,
    actual: Seq<char>,
    read: Option<JsonModel>,
) -> bool {
    match (expected, read) {
        (JsonModel::Object(want), Some(JsonModel::Object(have))) => {
            &&& rule.deep ==> want.len() == have.len()
            &&& forall|i: int|
                0 <= i < want.len() ==> match lookup::find_entry(
                    have,
                    (#[trigger] want[i]).0,
                    rule.key_case_sensitive,
                ) {
                    Some(v) => json_holds(rule, want[i].1, json::leaf_text(v)),
                    None => false,
                }
        },
        (JsonModel::Array(want), Some(JsonModel::Array(have))) => {
            &&& want.len() == have.len()
            &&& forall|i: int|
                0 <= i < want.len() ==> json_holds(
                    rule,
                    #[trigger] want[i],
                    json::leaf_text(have[i]),
                )
        },
        (JsonModel::Object(_), _) => false,
        (JsonModel::Array(_), _) => false,
        (leaf, _) => leaf_holds(rule, json::leaf_text(leaf), actual),
    }
}

/// The member under a key, where the value is an object that has it.
pub open spec fn member(m: JsonModel, key: Seq<char>) -> Option<JsonModel> {
    match m {
        JsonModel::Object(entries) => lookup::find_entry(entries, key, true),
        _ => None,
    }
}

/// Whether a field exists as an `exists` value asks.
///
/// A boolean asks for a non-empty or an empty text. An object reads the text as JSON and asks for
/// each member; a text that is not JSON satisfies it only where every member is to be absent.
/// Anything else asks for a non-empty text.
pub open spec fn existence_holds(expected: JsonModel, actual: Seq<char>) -> bool
    decreases expected,
{
    match expected {
        JsonModel::Bool(b) => (actual.len() > 0) == b,
        JsonModel::Object(want) => match json::json_read(actual) {
            None => forall|i: int|
                0 <= i < want.len() ==> (#[trigger] want[i]).1 == JsonModel::Bool(false),
            Some(have) => forall|i: int|
                0 <= i < want.len() ==> match (#[trigger] want[i]).1 {
                    JsonModel::Bool(b) => member(have, want[i].0) is Some == b,
                    JsonModel::Object(_) => match member(have, want[i].0) {
                        Some(v) => existence_holds(want[i].1, json::leaf_text(v)),
                        None => false,
                    },
                    _ => member(have, want[i].0) is Some,
                },
        },
        _ => actual.len() > 0,
    }
}

/// Whether a field exists as an `exists` value asks, in a text that was read as `read`.
pub open spec fn exists_read(
    expected: JsonModel,
    actual: Seq<char>,
    read: Option<JsonModel>,
) -> bool {
    match (expected, read) {
        (JsonModel::Bool(b), _) => (actual.len() > 0) == b,
        (JsonModel::Object(want), None) => forall|i: int|
            0 <= i < want.len() ==> (#[trigger] want[i]).1 == JsonModel::Bool(false),
        (JsonModel::Object(want), Some(have)) => forall|i: int|
            0 <= i < want.len() ==> match (#[trigger] want[i]).1 {
                JsonModel::Bool(b) => member(have, want[i].0) is Some == b,
                JsonModel::Object(_) => match member(have, want[i].0) {
                    Some(v) => existence_holds(want[i].1, json::leaf_text(v)),
                    None => false,
                },
                _ => member(have, want[i].0) is Some,
            },
        _ => actual.len() > 0,
    }
}

/// A value that was read, where one was.
pub open spec fn read_model(read: Option<&Json>) -> Option<JsonModel> {
    match read {
        Some(j) => Some(j.model()),
        None => None,
    }
}

/// A comparison rule with its compiled `except` pattern.
pub struct Comparator {
    pub relation: Relation,
    pub case_sensitive: bool,
    pub key_case_sensitive: bool,
    pub deep: bool,
    pub except: Option<Arc<Regex>>,
}

impl Comparator {
    /// The rule as contracts see it.
    pub open spec fn rule(&self) -> Rule {
        Rule {
            relation: self.relation,
            case_sensitive: self.case_sensitive,
            key_case_sensitive: self.key_case_sensitive,
            deep: self.deep,
            except: match self.except {
                Some(re) => Some(regex_cache::regex_source(*re).0),
                None => None,
            },
        }
    }

    /// An `except` pattern is compiled with case mattering.
    pub open spec fn wf(&self) -> bool {
        self.except is Some ==> !regex_cache::regex_source(*self.except->0).1
    }

    /// Erases the excepted matches from an actual text.
    pub fn apply_except(&self, actual: &str) -> (r: String)
        requires
            self.wf(),
        ensures
            r@ == excepted(self.rule(), actual@),
    {
        match &self.except {
            Some(re) => regex_cache::erase(re, actual),
            None => actual.to_owned(),
        }
    }

    /// Holds an expected text against an actual one, the excepted matches erased.
    pub fn check(&self, expected: &str, actual: &str, cache: &mut RegexCache) -> (r: bool)
        requires
            self.wf(),
            old(cache).wf(),
        ensures
            final(cache).wf(),
            r == leaf_holds(self.rule(), expected@, actual@),
    {
        let kept: String = self.apply_except(actual);
        match self.relation {
            Relation::Equals => text::texts_equal(expected, kept.as_str(), self.case_sensitive),
            Relation::Contains => text::contains_text(kept.as_str(), expected, self.case_sensitive),
            Relation::StartsWith => text::starts_with_text(
                kept.as_str(),
                expected,
                self.case_sensitive,
            ),
            Relation::EndsWith => text::ends_with_text(
                kept.as_str(),
                expected,
                self.case_sensitive,
            ),
            Relation::Matches => match cache.cached_regex(expected, !self.case_sensitive) {
                Some(re) => regex_cache::found(&re, kept.as_str()),
                None => false,
            },
        }
    }
}

/// Holds an expected JSON value against an actual text.
///
/// `pre_parsed` is the actual text already read; with it the text is not read again. Nested values
/// are written and read again, so a string that is JSON equals the container it encodes.
pub fn compare_json_recursive(
    comparator: &Comparator,
    expected: &Json,
    actual: &str,
    pre_parsed: Option<&Json>,
    cache: &mut RegexCache,
) -> (r: bool)
    requires
        comparator.wf(),
        old(cache).wf(),
        pre_parsed is Some ==> json::json_read(actual@) == Some(pre_parsed->0.model()),
    ensures
        final(cache).wf(),
        r == json_holds(comparator.rule(), expected.model(), actual@),
    decreases expected.model(), 2int,
{
    let container: bool = expected.as_object().is_some() || expected.as_array().is_some();
    let own: Option<Json> = if container && pre_parsed.is_none() {
        Json::parse(actual)
    } else {
        None
    };
    let read: Option<&Json> = match pre_parsed {
        Some(j) => Some(j),
        None => own.as_ref(),
    };
    compare_read(comparator, expected, actual, read, cache)
}

/// Holds an expected JSON value against an actual text that was read as `read`.
pub fn compare_read(
    comparator: &Comparator,
    expected: &Json,
    actual: &str,
    read: Option<&Json>,
    cache: &mut RegexCache,
) -> (r: bool)
    requires
        comparator.wf(),
        old(cache).wf(),
    ensures
        final(cache).wf(),
        r == holds_read(comparator.rule(), expected.model(), actual@, read_model(read)),
    decreases expected.model(), 1int,
{
    if let Some(want) = expected.as_object() {
        let have: &JsonObject = match read {
            Some(j) => match j.as_object() {
                Some(o) => o,
                None => {
                    return false;
                },
            },
            None => {
                return false;
            },
        };
        return compare_members(comparator, expected, want, have, actual, cache);
    }
    if let Some(want) = expected.as_array() {
        let have: &Vec<Json> = match read {
            Some(j) => match j.as_array() {
                Some(a) => a,
                None => {
                    return false;
                },
            },
            None => {
                return false;
            },
        };
        let ghost wants = expected.model()->Array_0;
        let ghost haves = read->0.model()->Array_0;
        if want.len() != have.len() {
            return false;
        }
        let mut i: usize = 0;
        while i < want.len()
            invariant
                comparator.wf(),
                cache.wf(),
                i <= want@.len() == have@.len() == wants.len() == haves.len(),
                expected.model() == JsonModel::Array(wants),
                read_model(read) == Some(JsonModel::Array(haves)),
                forall|k: int| 0 <= k < want@.len() ==> (#[trigger] want@[k]).model() == wants[k],
                forall|k: int| 0 <= k < have@.len() ==> (#[trigger] have@[k]).model() == haves[k],
                forall|k: int|
                    0 <= k < i ==> json_holds(
                        comparator.rule(),
                        #[trigger] wants[k],
                        json::leaf_text(haves[k]),
                    ),
            decreases want@.len() - i,
        {
            let actual_item: String = have[i].compared_text();
            proof {
                assert(want@[i as int].model() == wants[i as int]);
                assert(have@[i as int].model() == haves[i as int]);
                assert(expected.model()->Array_0[i as int] == wants[i as int]);
            }
            if !compare_json_recursive(comparator, &want[i], actual_item.as_str(), None, cache) {
                return false;
            }
            i += 1;
        }
        return true;
    }
    let leaf: String = expected.compared_text();
    comparator.check(leaf.as_str(), actual, cache)
}

/// Holds the members of an expected object against those of an actual one.
fn compare_members(
    comparator: &Comparator,
    expected: &Json,
    want: &JsonObject,
    have: &JsonObject,
    actual: &str,
    cache: &mut RegexCache,
) -> (r: bool)
    requires
        comparator.wf(),
        old(cache).wf(),
        expected.model() == JsonModel::Object(want@),
    ensures
        final(cache).wf(),
        r == holds_read(
            comparator.rule(),
            expected.model(),
            actual@,
            Some(JsonModel::Object(have@)),
        ),
    decreases expected.model(), 0int,
{
    if comparator.deep && want.len() != have.len() {
        return false;
    }
    let n: usize = want.len();
    let mut i: usize = 0;
    while i < n
        invariant
            comparator.wf(),
            cache.wf(),
            n == want@.len(),
            i <= n,
            expected.model() == JsonModel::Object(want@),
            comparator.deep ==> want@.len() == have@.len(),
            forall|k: int|
                0 <= k < i ==> match lookup::find_entry(
                    have@,
                    (#[trigger] want@[k]).0,
                    comparator.key_case_sensitive,
                ) {
                    Some(v) => json_holds(comparator.rule(), want@[k].1, json::leaf_text(v)),
                    None => false,
                },
        decreases n - i,
    {
        let found: &Json = match have.find(want.key_at(i).as_str(), comparator.key_case_sensitive) {
            Some(v) => v,
            None => {
                proof {
                    assert(lookup::find_entry(have@, want@[i as int].0, comparator.key_case_sensitive)
                        is None);
                }
                return false;
            },
        };
        let actual_value: String = found.compared_text();
        proof {
            assert(expected.model()->Object_0[i as int].1 == want@[i as int].1);
        }
        if !compare_json_recursive(comparator, want.value_at(i), actual_value.as_str(), None, cache) {
            return false;
        }
        i += 1;
    }
    true
}

/// Whether a field exists as an `exists` value asks.
pub fn check_exists_json_recursive(expected: &Json, actual: &str) -> (r: bool)
    ensures
        r == existence_holds(expected.model(), actual@),
    decreases expected.model(), 1int,
{
    let own: Option<Json> = if expected.as_object().is_some() {
        Json::parse(actual)
    } else {
        None
    };
    check_exists_read(expected, actual, own.as_ref())
}

/// Whether a field exists as an `exists` value asks, in a text that was read as `read`.
pub fn check_exists_read(expected: &Json, actual: &str, read: Option<&Json>) -> (r: bool)
    ensures
        r == exists_read(expected.model(), actual@, read_model(read)),
    decreases expected.model(), 0int,
{
    if let Some(b) = expected.as_bool() {
        return !actual.is_empty() == b;
    }
    let want: &JsonObject = match expected.as_object() {
        Some(o) => o,
        None => {
            return !actual.is_empty();
        },
    };
    let n: usize = want.len();
    let have: &Json = match read {
        Some(j) => j,
        None => {
            let mut i: usize = 0;
            while i < n
                invariant
                    n == want@.len(),
                    i <= n,
                    expected.model() == JsonModel::Object(want@),
                    read is None,
                    forall|k: int|
                        0 <= k < i ==> (#[trigger] want@[k]).1 == JsonModel::Bool(false),
                decreases n - i,
            {
                match want.value_at(i).as_bool() {
                    Some(false) => {},
                    _ => {
                        proof {
                            assert(want@[i as int].1 != JsonModel::Bool(false));
                        }
                        return false;
                    },
                }
                i += 1;
            }
            return true;
        },
    };
    let mut i: usize = 0;
    while i < n
        invariant
            n == want@.len(),
            i <= n,
            expected.model() == JsonModel::Object(want@),
            read_model(read) == Some(have.model()),
            forall|k: int|
                0 <= k < i ==> match (#[trigger] want@[k]).1 {
                    JsonModel::Bool(b) => member(have.model(), want@[k].0) is Some == b,
                    JsonModel::Object(_) => match member(have.model(), want@[k].0) {
                        Some(v) => existence_holds(want@[k].1, json::leaf_text(v)),
                        None => false,
                    },
                    _ => member(have.model(), want@[k].0) is Some,
                },
        decreases n - i,
    {
        let found: Option<&Json> = match have.as_object() {
            Some(o) => o.get(want.key_at(i).as_str()),
            None => None,
        };
        let asked: &Json = want.value_at(i);
        proof {
            assert(expected.model()->Object_0[i as int].1 == want@[i as int].1);
            assert((found is Some) == (member(have.model(), want@[i as int].0) is Some));
        }
        let holds: bool = if let Some(b) = asked.as_bool() {
            found.is_some() == b
        } else if asked.as_object().is_some() {
            match found {
                Some(v) => {
                    let nested: String = v.compared_text();
                    check_exists_json_recursive(asked, nested.as_str())
                },
                None => false,
            }
        } else {
            found.is_some()
        };
        if !holds {
            proof {
                assert(asked.model() == want@[i as int].1);
            }
            return false;
        }
        i += 1;
    }
    true
}

/// Where a text equals with case mattering and nothing is excepted, a leaf holds against the very
/// same text and no other.
pub proof fn law_exact_leaves_are_the_same(rule: Rule, expected: Seq<char>, actual: Seq<char>)
    requires
        rule.relation == Relation::Equals,
        rule.case_sensitive,
        rule.except is None,
    ensures
        leaf_holds(rule, expected, actual) <==> expected == actual,
{
    text::lemma_exact_eq(expected, actual);
}

/// Each relation asks for what it is named after: the whole text, a part, a beginning, an end, or
/// a match of a pattern that compiles, with case mattering as the rule says.
pub proof fn law_relations_ask_for_what_they_name(
    rule: Rule,
    before: Seq<char>,
    expected: Seq<char>,
    after: Seq<char>,
)
    requires
        rule.except is None,
    ensures
        rule.relation == Relation::Equals ==> leaf_holds(rule, expected, expected),
        rule.relation == Relation::Contains ==> leaf_holds(
            rule,
            expected,
            before + expected + after,
        ),
        rule.relation == Relation::StartsWith ==> leaf_holds(rule, expected, expected + after),
        rule.relation == Relation::EndsWith ==> leaf_holds(rule, expected, before + expected),
        rule.relation == Relation::Matches && !regex_cache::regex_compiles(
            expected,
            !rule.case_sensitive,
        ) ==> !leaf_holds(rule, expected, before),
        rule.relation == Relation::Matches && regex_cache::regex_compiles(
            expected,
            !rule.case_sensitive,
        ) ==> (leaf_holds(rule, expected, before) <==> regex_cache::regex_found(
            expected,
            !rule.case_sensitive,
            before,
        )),
{
    text::law_equal_texts_compare_equal(expected, rule.case_sensitive);
    text::law_texts_contain_their_parts(before, expected, after, rule.case_sensitive);
}

/// What is held against holds what is asked for: with case mattering, a text that holds is the
/// expected one, or has its bytes inside, at its beginning or at its end.
pub proof fn law_what_holds_has_what_is_asked_for(
    rule: Rule,
    expected: Seq<char>,
    actual: Seq<char>,
)
    requires
        rule.except is None,
        rule.case_sensitive,
        leaf_holds(rule, expected, actual),
    ensures
        rule.relation == Relation::Equals ==> actual == expected,
        rule.relation == Relation::Contains ==> exists|b: Seq<u8>, a: Seq<u8>|
            vstd::utf8::encode_utf8(actual) == #[trigger] (b + vstd::utf8::encode_utf8(expected) + a),
        rule.relation == Relation::StartsWith ==> exists|a: Seq<u8>|
            vstd::utf8::encode_utf8(actual) == #[trigger] (vstd::utf8::encode_utf8(expected) + a),
        rule.relation == Relation::EndsWith ==> exists|b: Seq<u8>|
            vstd::utf8::encode_utf8(actual) == #[trigger] (b + vstd::utf8::encode_utf8(expected)),
{
    text::lemma_exact_eq(expected, actual);
    text::law_needles_are_parts(actual, expected);
}

/// An excepted pattern is erased from the actual text, and from nothing else, before it is
/// compared.
pub proof fn law_exceptions_are_erased_first(
    rule: Rule,
    bare: Rule,
    pattern: Seq<char>,
    expected: Seq<char>,
    actual: Seq<char>,
)
    requires
        rule.except == Some(pattern),
        bare.except is None,
        bare.relation == rule.relation,
        bare.case_sensitive == rule.case_sensitive,
    ensures
        leaf_holds(rule, expected, actual) == leaf_holds(
            bare,
            expected,
            regex_cache::regex_erased(pattern, false, actual),
        ),
{
}

/// An empty pattern, or one that does not compile, excepts nothing; any other excepts its own
/// matches.
pub proof fn law_bad_exceptions_except_nothing(pattern: Seq<char>)
    ensures
        pattern.len() == 0 ==> effective_except(pattern) is None,
        !regex_cache::regex_compiles(pattern, false) ==> effective_except(pattern) is None,
        pattern.len() > 0 && regex_cache::regex_compiles(pattern, false) ==> effective_except(
            pattern,
        ) == Some(pattern),
{
}

/// An expected array holds only against a text that is an array of as many items, and only where
/// each of its items holds against the one at its place, whether the rule is deep or not.
pub proof fn law_arrays_hold_item_by_item(
    rule: Rule,
    want: Seq<JsonModel>,
    actual: Seq<char>,
    i: int,
)
    requires
        json_holds(rule, JsonModel::Array(want), actual),
        0 <= i < want.len(),
    ensures
        json::json_read(actual) matches Some(JsonModel::Array(have)) && have.len() == want.len()
            && json_holds(rule, want[i], json::leaf_text(have[i])),
        (want[i] !is Object && want[i] !is Array) ==> related(
            rule,
            json::leaf_text(want[i]),
            excepted(rule, json::leaf_text(json::json_read(actual)->0->Array_0[i])),
        ),
{
    let have = json::json_read(actual)->0->Array_0;
    assert(json_holds(rule, want[i], json::leaf_text(have[i])));
}

/// An expected array whose every item holds against the one at its place holds.
pub proof fn law_arrays_of_holding_items_hold(
    rule: Rule,
    want: Seq<JsonModel>,
    actual: Seq<char>,
    have: Seq<JsonModel>,
)
    requires
        json::json_read(actual) == Some(JsonModel::Array(have)),
        want.len() == have.len(),
        forall|i: int|
            0 <= i < want.len() ==> json_holds(
                rule,
                #[trigger] want[i],
                json::leaf_text(have[i]),
            ),
    ensures
        json_holds(rule, JsonModel::Array(want), actual),
{
}

/// Where strings equal with case mattering and nothing is excepted, an array of strings holds
/// against a text exactly where that text is an array of those strings, in their order, whether
/// the rule is deep or not.
pub proof fn law_string_arrays_hold_as_they_are(
    rule: Rule,
    expected: Seq<char>,
    actual: Seq<char>,
    want: Seq<Seq<char>>,
    have: Seq<Seq<char>>,
)
    requires
        rule.relation == Relation::Equals,
        rule.case_sensitive,
        rule.except is None,
        json::json_read(expected) == Some(
            JsonModel::Array(Seq::new(want.len(), |i: int| JsonModel::Text(want[i]))),
        ),
        json::json_read(actual) == Some(
            JsonModel::Array(Seq::new(have.len(), |i: int| JsonModel::Text(have[i]))),
        ),
    ensures
        json_holds(rule, json::json_read(expected)->0, actual) <==> want == have,
        holds_read(rule, json::json_read(expected)->0, actual, json::json_read(actual)) <==> want
            == have,
{
    let ws = Seq::new(want.len(), |i: int| JsonModel::Text(want[i]));
    let hs = Seq::new(have.len(), |i: int| JsonModel::Text(have[i]));
    assert(json::json_read(expected)->0 == JsonModel::Array(ws));
    if json_holds(rule, JsonModel::Array(ws), actual) {
        assert forall|i: int| 0 <= i < want.len() implies want[i] == have[i] by {
            assert(json_holds(rule, ws[i], json::leaf_text(hs[i])));
            text::lemma_exact_eq(want[i], have[i]);
        }
        assert(want =~= have);
    }
    if holds_read(rule, JsonModel::Array(ws), actual, Some(JsonModel::Array(hs))) {
        assert forall|i: int| 0 <= i < want.len() implies want[i] == have[i] by {
            assert(json_holds(rule, ws[i], json::leaf_text(hs[i])));
            text::lemma_exact_eq(want[i], have[i]);
        }
        assert(want =~= have);
    }
    if want == have {
        assert forall|i: int| 0 <= i < ws.len() implies json_holds(
            rule,
            #[trigger] ws[i],
            json::leaf_text(hs[i]),
        ) by {
            text::lemma_exact_eq(want[i], have[i]);
        }
    }
}

/// Two arrays with scalars of different texts at one place never both hold against one text, where
/// scalars equal with case mattering and nothing is excepted.
pub proof fn law_different_arrays_do_not_both_hold(
    rule: Rule,
    one: Seq<JsonModel>,
    other: Seq<JsonModel>,
    actual: Seq<char>,
    read: Option<JsonModel>,
    i: int,
)
    requires
        rule.relation == Relation::Equals,
        rule.case_sensitive,
        rule.except is None,
        0 <= i < one.len(),
        i < other.len(),
        one[i] !is Object && one[i] !is Array,
        other[i] !is Object && other[i] !is Array,
        json::leaf_text(one[i]) != json::leaf_text(other[i]),
    ensures
        !(json_holds(rule, JsonModel::Array(one), actual) && json_holds(
            rule,
            JsonModel::Array(other),
            actual,
        )),
        !(holds_read(rule, JsonModel::Array(one), actual, read) && holds_read(
            rule,
            JsonModel::Array(other),
            actual,
            read,
        )),
{
    if json_holds(rule, JsonModel::Array(one), actual) && json_holds(
        rule,
        JsonModel::Array(other),
        actual,
    ) {
        let have = json::json_read(actual)->0->Array_0;
        assert(json_holds(rule, one[i], json::leaf_text(have[i])));
        assert(json_holds(rule, other[i], json::leaf_text(have[i])));
        text::lemma_exact_eq(json::leaf_text(one[i]), json::leaf_text(have[i]));
        text::lemma_exact_eq(json::leaf_text(other[i]), json::leaf_text(have[i]));
    }
    if holds_read(rule, JsonModel::Array(one), actual, read) && holds_read(
        rule,
        JsonModel::Array(other),
        actual,
        read,
    ) {
        let have = read->0->Array_0;
        assert(json_holds(rule, one[i], json::leaf_text(have[i])));
        assert(json_holds(rule, other[i], json::leaf_text(have[i])));
        text::lemma_exact_eq(json::leaf_text(one[i]), json::leaf_text(have[i]));
        text::lemma_exact_eq(json::leaf_text(other[i]), json::leaf_text(have[i]));
    }
}

/// Reading a text once and comparing what was read comes to the same as comparing the text; an
/// object or an array is held against what was read alone.
pub proof fn law_reading_ahead_changes_nothing(
    rule: Rule,
    expected: JsonModel,
    actual: Seq<char>,
    other: Seq<char>,
)
    ensures
        (expected is Object || expected is Array) ==> holds_read(
            rule,
            expected,
            other,
            json::json_read(actual),
        ) == json_holds(rule, expected, actual),
        holds_read(rule, expected, actual, json::json_read(actual)) == json_holds(
            rule,
            expected,
            actual,
        ),
        exists_read(expected, actual, json::json_read(actual)) == existence_holds(
            expected,
            actual,
        ),
{
}

/// An expected object holds only against a text that is an object with each of its members: under
/// the key as spelled, or as spelled but for case, a value that holds. Under `deep` the text has
/// as many members, and no more.
pub proof fn law_objects_hold_member_by_member(
    rule: Rule,
    want: Seq<(Seq<char>, JsonModel)>,
    actual: Seq<char>,
    i: int,
)
    requires
        json_holds(rule, JsonModel::Object(want), actual),
    ensures
        json::json_read(actual) matches Some(JsonModel::Object(have)) && (rule.deep ==> have.len()
            == want.len()) && (0 <= i < want.len() ==> exists|j: int|
            0 <= j < have.len() && text::text_eq(
                (#[trigger] have[j]).0,
                want[i].0,
                rule.key_case_sensitive,
            ) && json_holds(rule, want[i].1, json::leaf_text(have[j].1))),
{
    let have = json::json_read(actual)->0->Object_0;
    if 0 <= i < want.len() {
        assert(lookup::find_entry(have, want[i].0, rule.key_case_sensitive) is Some);
        let j = lookup::lemma_found_is_member(have, want[i].0, rule.key_case_sensitive);
        assert(json_holds(rule, want[i].1, json::leaf_text(have[j].1)));
    }
}

proof fn lemma_find_in_longer<T>(
    entries: Seq<(Seq<char>, T)>,
    more: Seq<(Seq<char>, T)>,
    key: Seq<char>,
    case_sensitive: bool,
)
    requires
        lookup::find_entry(entries, key, case_sensitive) is Some,
    ensures
        lookup::find_entry(entries + more, key, case_sensitive) == lookup::find_entry(
            entries,
            key,
            case_sensitive,
        ),
    decreases entries.len(),
{
    assert((entries + more)[0] == entries[0]);
    if !text::text_eq(entries[0].0, key, case_sensitive) {
        assert((entries + more).drop_first() =~= entries.drop_first() + more);
        lemma_find_in_longer(entries.drop_first(), more, key, case_sensitive);
    }
}

/// Unless the rule is deep, an object that holds goes on holding with more members in the text;
/// under a deep rule it does not.
pub proof fn law_only_deep_rules_mind_other_members(
    rule: Rule,
    want: Seq<(Seq<char>, JsonModel)>,
    actual: Seq<char>,
    longer: Seq<char>,
    have: Seq<(Seq<char>, JsonModel)>,
    more: Seq<(Seq<char>, JsonModel)>,
)
    requires
        json::json_read(actual) == Some(JsonModel::Object(have)),
        json::json_read(longer) == Some(JsonModel::Object(have + more)),
        json_holds(rule, JsonModel::Object(want), actual),
    ensures
        !rule.deep ==> json_holds(rule, JsonModel::Object(want), longer),
        rule.deep && more.len() > 0 ==> !json_holds(rule, JsonModel::Object(want), longer),
{
    assert forall|i: int| 0 <= i < want.len() implies match lookup::find_entry(
        have + more,
        (#[trigger] want[i]).0,
        rule.key_case_sensitive,
    ) {
        Some(v) => json_holds(rule, want[i].1, json::leaf_text(v)),
        None => false,
    } by {
        assert(lookup::find_entry(have, want[i].0, rule.key_case_sensitive) is Some);
        lemma_find_in_longer(have, more, want[i].0, rule.key_case_sensitive);
    }
}

/// A text that is not an object holds against no expected object, and one that is not an array
/// against no expected array.
pub proof fn law_other_shapes_do_not_hold(
    rule: Rule,
    members: Seq<(Seq<char>, JsonModel)>,
    items: Seq<JsonModel>,
    actual: Seq<char>,
)
    ensures
        actual.len() == 0 ==> !json_holds(rule, JsonModel::Object(members), actual) && !json_holds(
            rule,
            JsonModel::Array(items),
            actual,
        ),
        json_holds(rule, JsonModel::Object(members), actual) ==> json::json_read(actual) is Some
            && json::json_read(actual)->0 is Object,
        json_holds(rule, JsonModel::Array(items), actual) ==> json::json_read(actual) is Some
            && json::json_read(actual)->0 is Array,
{
}

/// An `exists` of `true` asks for a text that is not empty, and one of `false` for an empty text.
pub proof fn law_presence_is_a_text_that_is_not_empty(b: bool, actual: Seq<char>)
    ensures
        existence_holds(JsonModel::Bool(b), actual) <==> (b <==> actual.len() > 0),
        existence_holds(JsonModel::Null, actual) <==> actual.len() > 0,
        existence_holds(JsonModel::Text(actual), actual) <==> actual.len() > 0,
        existence_holds(JsonModel::Array(Seq::empty()), actual) <==> actual.len() > 0,
{
}

/// An `exists` object whose members are all booleans holds against an object exactly where each
/// key asked for with `true` stands in it, and none asked for with `false` does; and against a
/// text that is not JSON exactly where every key is asked to be absent.
pub proof fn law_members_exist_as_asked(
    want: Seq<(Seq<char>, JsonModel)>,
    actual: Seq<char>,
    have: Seq<(Seq<char>, JsonModel)>,
)
    requires
        forall|i: int| 0 <= i < want.len() ==> (#[trigger] want[i]).1 is Bool,
    ensures
        json::json_read(actual) == Some(JsonModel::Object(have)) ==> (existence_holds(
            JsonModel::Object(want),
            actual,
        ) <==> forall|i: int|
            0 <= i < want.len() ==> ((#[trigger] want[i]).1 == JsonModel::Bool(true) <==> exists|
                j: int,
            |
                0 <= j < have.len() && (#[trigger] have[j]).0 == want[i].0)),
        json::json_read(actual) is None ==> (existence_holds(JsonModel::Object(want), actual)
            <==> forall|i: int|
            0 <= i < want.len() ==> (#[trigger] want[i]).1 == JsonModel::Bool(false)),
{
    if json::json_read(actual) == Some(JsonModel::Object(have)) {
        let read = JsonModel::Object(have);
        assert forall|i: int| 0 <= i < want.len() implies (member(
            read,
            (#[trigger] want[i]).0,
        ) is Some <==> exists|j: int| 0 <= j < have.len() && (#[trigger] have[j]).0 == want[i].0) by {
            let key = want[i].0;
            lookup::lemma_find_none(have, key, true);
            if member(read, key) is Some {
                let j = lookup::lemma_found_is_member(have, key, true);
                text::lemma_exact_eq(have[j].0, key);
            }
            if exists|j: int| 0 <= j < have.len() && (#[trigger] have[j]).0 == key {
                let j = choose|j: int| 0 <= j < have.len() && (#[trigger] have[j]).0 == key;
                text::lemma_exact_eq(have[j].0, key);
            }
        }
        assert forall|i: int| 0 <= i < want.len() implies ((#[trigger] want[i]).1
            == JsonModel::Bool(true) <==> want[i].1->Bool_0) by {
        }
        if existence_holds(JsonModel::Object(want), actual) {
            assert forall|i: int| 0 <= i < want.len() implies ((#[trigger] want[i]).1
                == JsonModel::Bool(true) <==> exists|j: int|
                0 <= j < have.len() && (#[trigger] have[j]).0 == want[i].0) by {
                assert(member(read, want[i].0) is Some == want[i].1->Bool_0);
            }
        }
        if forall|i: int|
            0 <= i < want.len() ==> ((#[trigger] want[i]).1 == JsonModel::Bool(true) <==> exists|
                j: int,
            |
                0 <= j < have.len() && (#[trigger] have[j]).0 == want[i].0) {
            assert forall|i: int| 0 <= i < want.len() implies match (#[trigger] want[i]).1 {
                JsonModel::Bool(b) => member(read, want[i].0) is Some == b,
                _ => false,
            } by {
                assert(want[i].1 is Bool);
            }
            assert(existence_holds(JsonModel::Object(want), actual));
        }
    }
}

/// A member asked for by an object is there and holds what that object asks for in turn; one asked
/// for by anything else is there.
pub proof fn law_nested_members_exist_as_asked(
    want: Seq<(Seq<char>, JsonModel)>,
    actual: Seq<char>,
    have: Seq<(Seq<char>, JsonModel)>,
    i: int,
)
    requires
        existence_holds(JsonModel::Object(want), actual),
        json::json_read(actual) == Some(JsonModel::Object(have)),
        0 <= i < want.len(),
        want[i].1 !is Bool,
    ensures
        exists|j: int|
            0 <= j < have.len() && (#[trigger] have[j]).0 == want[i].0 && (want[i].1 is Object
                ==> existence_holds(want[i].1, json::leaf_text(have[j].1))),
{
    assert(member(JsonModel::Object(have), want[i].0) is Some);
    let j = lookup::lemma_found_is_member(have, want[i].0, true);
    text::lemma_exact_eq(have[j].0, want[i].0);
    assert(want[i].1 is Object ==> existence_holds(want[i].1, json::leaf_text(have[j].1)));
}

} // verus!
