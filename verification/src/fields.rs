//! Field maps held against a request.
//!
//! A field map names request fields (`method`, `path`, `body`, `query`, `headers`, `form`,
//! `requestFrom`, `ip`) and what each is to hold. Fields it does not name are not looked at.

use crate::compare;
use crate::compare::{Comparator, Rule};
use crate::json;
use crate::json::{Json, JsonModel, JsonObject};
use crate::lookup;
use crate::regex_cache::RegexCache;
use crate::text;
use vstd::prelude::*;

verus! {

/// The parts of a request that predicates look at.
pub struct Subject<'a> {
    pub method: &'a str,
    pub path: &'a str,
    pub query: &'a Vec<(String, String)>,
    pub headers: &'a Vec<(String, String)>,
    pub body: &'a str,
    pub request_from: Option<&'a str>,
    pub client_ip: Option<&'a str>,
    pub form: Option<&'a Vec<(String, String)>>,
}

/// The parts of a request as contracts see them.
pub struct SubjectModel {
    pub method: Seq<char>,
    pub path: Seq<char>,
    pub query: Seq<(Seq<char>, Seq<char>)>,
    pub headers: Seq<(Seq<char>, Seq<char>)>,
    pub body: Seq<char>,
    pub request_from: Option<Seq<char>>,
    pub client_ip: Option<Seq<char>>,
    pub form: Option<Seq<(Seq<char>, Seq<char>)>>,
}

/// An optional list as contracts see it.
pub open spec fn optional_pairs(list: Option<&Vec<(String, String)>>) -> Option<
    Seq<(Seq<char>, Seq<char>)>,
> {
    match list {
        Some(l) => Some(lookup::pairs(l@)),
        None => None,
    }
}

impl<'a> Subject<'a> {
    /// The parts as contracts see them.
    pub open spec fn view(&self) -> SubjectModel {
        SubjectModel {
            method: self.method@,
            path: self.path@,
            query: lookup::pairs(self.query@),
            headers: lookup::pairs(self.headers@),
            body: self.body@,
            request_from: text::optional_str(self.request_from),
            client_ip: text::optional_str(self.client_ip),
            form: optional_pairs(self.form),
        }
    }
}

/// An absent text counts as an empty one.
pub open spec fn text_or_empty(s: Option<Seq<char>>) -> Seq<char> {
    match s {
        Some(t) => t,
        None => Seq::empty(),
    }
}

/// An absent list counts as an empty one.
pub open spec fn list_or_empty(list: Option<Seq<(Seq<char>, Seq<char>)>>) -> Seq<
    (Seq<char>, Seq<char>),
> {
    match list {
        Some(l) => l,
        None => Seq::empty(),
    }
}

/// The text of an expected scalar: a string raw, anything else as JSON text.
pub open spec fn expected_text(m: JsonModel) -> Seq<char> {
    match m {
        JsonModel::Text(s) => s,
        _ => json::json_text(m),
    }
}

/// A field that holds one text.
pub open spec fn scalar_holds(
    rule: Rule,
    fields: Seq<(Seq<char>, JsonModel)>,
    name: Seq<char>,
    actual: Seq<char>,
) -> bool {
    match lookup::find_entry(fields, name, true) {
        Some(want) => compare::leaf_holds(rule, expected_text(want), actual),
        None => true,
    }
}

/// The body: an expected object or array is held against the body as JSON, anything else against
/// its text.
pub open spec fn body_holds(
    rule: Rule,
    fields: Seq<(Seq<char>, JsonModel)>,
    actual: Seq<char>,
) -> bool {
    match lookup::find_entry(fields, "body"@, true) {
        Some(want) => if want is Object || want is Array {
            compare::json_holds(rule, want, actual)
        } else {
            compare::leaf_holds(rule, expected_text(want), actual)
        },
        None => true,
    }
}

/// A field that holds a list: every expected key is there with a value that holds, and under
/// `deep` there are no others.
pub open spec fn list_holds(
    rule: Rule,
    fields: Seq<(Seq<char>, JsonModel)>,
    name: Seq<char>,
    actual: Seq<(Seq<char>, Seq<char>)>,
) -> bool {
    match lookup::find_entry(fields, name, true) {
        Some(JsonModel::Object(want)) => {
            &&& rule.deep ==> want.len() == actual.len()
            &&& forall|i: int|
                0 <= i < want.len() ==> match lookup::find_entry(
                    actual,
                    (#[trigger] want[i]).0,
                    rule.key_case_sensitive,
                ) {
                    Some(v) => compare::leaf_holds(rule, expected_text(want[i].1), v),
                    None => false,
                }
        },
        _ => true,
    }
}

/// Whether every named field holds.
pub open spec fn fields_hold(
    rule: Rule,
    fields: Seq<(Seq<char>, JsonModel)>,
    s: SubjectModel,
) -> bool {
    &&& scalar_holds(rule, fields, "method"@, s.method)
    &&& scalar_holds(rule, fields, "path"@, s.path)
    &&& scalar_holds(rule, fields, "requestFrom"@, text_or_empty(s.request_from))
    &&& scalar_holds(rule, fields, "ip"@, text_or_empty(s.client_ip))
    &&& body_holds(rule, fields, s.body)
    &&& list_holds(rule, fields, "query"@, s.query)
    &&& list_holds(rule, fields, "headers"@, s.headers)
    &&& list_holds(rule, fields, "form"@, list_or_empty(s.form))
}

/// Whether a boolean asks for presence; anything but a boolean does.
pub open spec fn asks_presence(m: JsonModel) -> bool {
    match m {
        JsonModel::Bool(b) => b,
        _ => true,
    }
}

/// A scalar field is present or absent as asked.
pub open spec fn presence_holds(
    fields: Seq<(Seq<char>, JsonModel)>,
    name: Seq<char>,
    actual: Seq<char>,
) -> bool {
    match lookup::find_entry(fields, name, true) {
        Some(want) => (actual.len() > 0) == asks_presence(want),
        None => true,
    }
}

/// The keys of a list field are present or absent as asked.
pub open spec fn keys_presence_holds(
    fields: Seq<(Seq<char>, JsonModel)>,
    name: Seq<char>,
    actual: Seq<(Seq<char>, Seq<char>)>,
    key_case_sensitive: bool,
) -> bool {
    match lookup::find_entry(fields, name, true) {
        Some(JsonModel::Object(want)) => forall|i: int|
            0 <= i < want.len() ==> lookup::has_key(
                actual,
                (#[trigger] want[i]).0,
                key_case_sensitive,
            ) == asks_presence(want[i].1),
        _ => true,
    }
}

/// Whether every named field is present or absent as asked.
pub open spec fn exists_hold(
    fields: Seq<(Seq<char>, JsonModel)>,
    s: SubjectModel,
    key_case_sensitive: bool,
) -> bool {
    &&& presence_holds(fields, "method"@, s.method)
    &&& presence_holds(fields, "path"@, s.path)
    &&& presence_holds(fields, "requestFrom"@, text_or_empty(s.request_from))
    &&& presence_holds(fields, "ip"@, text_or_empty(s.client_ip))
    &&& match lookup::find_entry(fields, "body"@, true) {
        Some(want) => compare::existence_holds(want, s.body),
        None => true,
    }
    &&& keys_presence_holds(fields, "query"@, s.query, key_case_sensitive)
    &&& keys_presence_holds(fields, "headers"@, s.headers, key_case_sensitive)
    &&& keys_presence_holds(fields, "form"@, list_or_empty(s.form), key_case_sensitive)
}

fn text_of_expected(want: &Json) -> (r: String)
    ensures
        r@ == expected_text(want.model()),
{
    match want.as_text() {
        Some(s) => s.clone(),
        None => want.to_text(),
    }
}

fn scalar_field(
    comparator: &Comparator,
    fields: &JsonObject,
    name: &str,
    actual: &str,
    cache: &mut RegexCache,
) -> (r: bool)
    requires
        comparator.wf(),
        old(cache).wf(),
    ensures
        final(cache).wf(),
        r == scalar_holds(comparator.rule(), fields@, name@, actual@),
{
    match fields.get(name) {
        Some(want) => comparator.check(text_of_expected(want).as_str(), actual, cache),
        None => true,
    }
}

fn list_field(
    comparator: &Comparator,
    fields: &JsonObject,
    name: &str,
    actual: &Vec<(String, String)>,
    cache: &mut RegexCache,
) -> (r: bool)
    requires
        comparator.wf(),
        old(cache).wf(),
    ensures
        final(cache).wf(),
        r == list_holds(comparator.rule(), fields@, name@, lookup::pairs(actual@)),
{
    let want: &JsonObject = match fields.get(name) {
        Some(j) => match j.as_object() {
            Some(o) => o,
            None => {
                return true;
            },
        },
        None => {
            return true;
        },
    };
    if comparator.deep && want.len() != actual.len() {
        return false;
    }
    let n: usize = want.len();
    let mut i: usize = 0;
    while i < n
        invariant
            comparator.wf(),
            cache.wf(),
            n == want@.len(),
            i <= n,
            lookup::find_entry(fields@, name@, true) == Some(JsonModel::Object(want@)),
            comparator.deep ==> want@.len() == actual@.len(),
            forall|k: int|
                0 <= k < i ==> match lookup::find_entry(
                    lookup::pairs(actual@),
                    (#[trigger] want@[k]).0,
                    comparator.key_case_sensitive,
                ) {
                    Some(v) => compare::leaf_holds(comparator.rule(), expected_text(want@[k].1), v),
                    None => false,
                },
        decreases n - i,
    {
        let value: &String = match lookup::find(
            actual,
            want.key_at(i).as_str(),
            comparator.key_case_sensitive,
        ) {
            Some(v) => v,
            None => {
                proof {
                    assert(lookup::find_entry(
                        lookup::pairs(actual@),
                        want@[i as int].0,
                        comparator.key_case_sensitive,
                    ) is None);
                }
                return false;
            },
        };
        if !comparator.check(text_of_expected(want.value_at(i)).as_str(), value.as_str(), cache) {
            proof {
                assert(!compare::leaf_holds(
                    comparator.rule(),
                    expected_text(want@[i as int].1),
                    value@,
                ));
            }
            return false;
        }
        i += 1;
    }
    true
}

fn body_field(
    comparator: &Comparator,
    fields: &JsonObject,
    actual: &str,
    body_json: Option<&Json>,
    cache: &mut RegexCache,
) -> (r: bool)
    requires
        comparator.wf(),
        old(cache).wf(),
        body_json is Some ==> json::json_read(actual@) == Some(body_json->0.model()),
    ensures
        final(cache).wf(),
        r == body_holds(comparator.rule(), fields@, actual@),
{
    match fields.get("body") {
        Some(want) => if want.as_object().is_some() || want.as_array().is_some() {
            compare::compare_json_recursive(comparator, want, actual, body_json, cache)
        } else {
            comparator.check(text_of_expected(want).as_str(), actual, cache)
        },
        None => true,
    }
}

/// Holds a field map against a request.
///
/// `body_json` is the body already read as JSON, where it was.
pub fn check_predicate_fields(
    comparator: &Comparator,
    fields: &JsonObject,
    subject: &Subject<'_>,
    body_json: Option<&Json>,
    cache: &mut RegexCache,
) -> (r: bool)
    requires
        comparator.wf(),
        old(cache).wf(),
        body_json is Some ==> json::json_read(subject.body@) == Some(body_json->0.model()),
    ensures
        final(cache).wf(),
        r == fields_hold(comparator.rule(), fields@, subject@),
{
    let no_fields: Vec<(String, String)> = Vec::new();
    proof {
        assert(lookup::pairs(no_fields@) =~= Seq::<(Seq<char>, Seq<char>)>::empty());
    }
    let empty: String = String::new();
    let from: &str = match subject.request_from {
        Some(s) => s,
        None => empty.as_str(),
    };
    let ip: &str = match subject.client_ip {
        Some(s) => s,
        None => empty.as_str(),
    };
    let form: &Vec<(String, String)> = match subject.form {
        Some(f) => f,
        None => &no_fields,
    };
    scalar_field(comparator, fields, "method", subject.method, cache) && scalar_field(
        comparator,
        fields,
        "path",
        subject.path,
        cache,
    ) && scalar_field(comparator, fields, "requestFrom", from, cache) && scalar_field(
        comparator,
        fields,
        "ip",
        ip,
        cache,
    ) && body_field(comparator, fields, subject.body, body_json, cache) && list_field(
        comparator,
        fields,
        "query",
        subject.query,
        cache,
    ) && list_field(comparator, fields, "headers", subject.headers, cache) && list_field(
        comparator,
        fields,
        "form",
        form,
        cache,
    )
}

fn scalar_presence(fields: &JsonObject, name: &str, actual: &str) -> (r: bool)
    ensures
        r == presence_holds(fields@, name@, actual@),
{
    match fields.get(name) {
        Some(want) => !actual.is_empty() == want.as_bool().unwrap_or(true),
        None => true,
    }
}

fn key_presence(
    fields: &JsonObject,
    name: &str,
    actual: &Vec<(String, String)>,
    key_case_sensitive: bool,
) -> (r: bool)
    ensures
        r == keys_presence_holds(fields@, name@, lookup::pairs(actual@), key_case_sensitive),
{
    let want: &JsonObject = match fields.get(name) {
        Some(j) => match j.as_object() {
            Some(o) => o,
            None => {
                return true;
            },
        },
        None => {
            return true;
        },
    };
    let n: usize = want.len();
    let mut i: usize = 0;
    while i < n
        invariant
            n == want@.len(),
            i <= n,
            lookup::find_entry(fields@, name@, true) == Some(JsonModel::Object(want@)),
            forall|k: int|
                0 <= k < i ==> lookup::has_key(
                    lookup::pairs(actual@),
                    (#[trigger] want@[k]).0,
                    key_case_sensitive,
                ) == asks_presence(want@[k].1),
        decreases n - i,
    {
        let there: bool = lookup::find(actual, want.key_at(i).as_str(), key_case_sensitive).is_some();
        proof {
            lookup::lemma_find_none(lookup::pairs(actual@), want@[i as int].0, key_case_sensitive);
        }
        if there != want.value_at(i).as_bool().unwrap_or(true) {
            proof {
                assert(lookup::has_key(
                    lookup::pairs(actual@),
                    want@[i as int].0,
                    key_case_sensitive,
                ) != asks_presence(want@[i as int].1));
                assert(lookup::find_entry(fields@, name@, true)->0->Object_0[i as int]
                    == want@[i as int]);
            }
            return false;
        }
        i += 1;
    }
    true
}

/// Checks presence or absence of the named fields.
pub fn check_exists_predicate(
    fields: &JsonObject,
    subject: &Subject<'_>,
    key_case_sensitive: bool,
) -> (r: bool)
    ensures
        r == exists_hold(fields@, subject@, key_case_sensitive),
{
    let no_fields: Vec<(String, String)> = Vec::new();
    proof {
        assert(lookup::pairs(no_fields@) =~= Seq::<(Seq<char>, Seq<char>)>::empty());
    }
    let empty: String = String::new();
    let from: &str = match subject.request_from {
        Some(s) => s,
        None => empty.as_str(),
    };
    let ip: &str = match subject.client_ip {
        Some(s) => s,
        None => empty.as_str(),
    };
    let form: &Vec<(String, String)> = match subject.form {
        Some(f) => f,
        None => &no_fields,
    };
    let body: bool = match fields.get("body") {
        Some(want) => compare::check_exists_json_recursive(want, subject.body),
        None => true,
    };
    scalar_presence(fields, "method", subject.method) && scalar_presence(
        fields,
        "path",
        subject.path,
    ) && scalar_presence(fields, "requestFrom", from) && scalar_presence(fields, "ip", ip) && body
        && key_presence(fields, "query", subject.query, key_case_sensitive) && key_presence(
        fields,
        "headers",
        subject.headers,
        key_case_sensitive,
    ) && key_presence(fields, "form", form, key_case_sensitive)
}

proof fn lemma_names_apart()
    ensures
        "method"@[0] == 'm' && "path"@[0] == 'p' && "requestFrom"@[0] == 'r' && "ip"@[0] == 'i',
        "body"@[0] == 'b' && "query"@[0] == 'q' && "headers"@[0] == 'h' && "form"@[0] == 'f',
{
    reveal_strlit("method");
    reveal_strlit("path");
    reveal_strlit("requestFrom");
    reveal_strlit("ip");
    reveal_strlit("body");
    reveal_strlit("query");
    reveal_strlit("headers");
    reveal_strlit("form");
}

proof fn lemma_find_single(name: Seq<char>, want: JsonModel, other: Seq<char>)
    ensures
        lookup::find_entry(seq![(name, want)], other, true) == (if other == name {
            Some(want)
        } else {
            None
        }),
{
    text::lemma_exact_eq(name, other);
    let one = seq![(name, want)];
    assert(one[0] == (name, want));
    assert(one.drop_first() =~= Seq::<(Seq<char>, JsonModel)>::empty());
    assert(lookup::find_entry(one.drop_first(), other, true) is None);
}

/// A map that names one field that is a text holds exactly where that text does: the method, the
/// path, where the request is from, or its address; an absent one of the last two is empty. The
/// other fields are not looked at.
pub proof fn law_a_text_field_is_held_against_its_text(rule: Rule, want: JsonModel, s: SubjectModel)
    ensures
        fields_hold(rule, seq![("method"@, want)], s) <==> compare::leaf_holds(
            rule,
            expected_text(want),
            s.method,
        ),
        fields_hold(rule, seq![("path"@, want)], s) <==> compare::leaf_holds(
            rule,
            expected_text(want),
            s.path,
        ),
        fields_hold(rule, seq![("requestFrom"@, want)], s) <==> compare::leaf_holds(
            rule,
            expected_text(want),
            if s.request_from is Some {
                s.request_from->0
            } else {
                Seq::empty()
            },
        ),
        fields_hold(rule, seq![("ip"@, want)], s) <==> compare::leaf_holds(
            rule,
            expected_text(want),
            if s.client_ip is Some {
                s.client_ip->0
            } else {
                Seq::empty()
            },
        ),
{
    lemma_names_apart();
    assert forall|a: Seq<char>, b: Seq<char>| #[trigger]
        lookup::find_entry(seq![(a, want)], b, true) == (if b == a {
            Some(want)
        } else {
            None
        }) by {
        lemma_find_single(a, want, b);
    }
}

/// A map that names the body holds exactly where the body does: an object or an array as JSON, and
/// anything else as text.
pub proof fn law_the_body_is_held_by_its_shape(rule: Rule, want: JsonModel, s: SubjectModel)
    ensures
        want is Object || want is Array ==> (fields_hold(rule, seq![("body"@, want)], s)
            <==> compare::json_holds(rule, want, s.body)),
        !(want is Object || want is Array) ==> (fields_hold(rule, seq![("body"@, want)], s)
            <==> compare::leaf_holds(rule, expected_text(want), s.body)),
{
    lemma_names_apart();
    assert forall|b: Seq<char>| #[trigger]
        lookup::find_entry(seq![("body"@, want)], b, true) == (if b == "body"@ {
            Some(want)
        } else {
            None
        }) by {
        lemma_find_single("body"@, want, b);
    }
}

/// The list of a request under the name of a field that is one.
pub open spec fn list_named(s: SubjectModel, name: Seq<char>) -> Seq<(Seq<char>, Seq<char>)> {
    if name == "query"@ {
        s.query
    } else if name == "headers"@ {
        s.headers
    } else if s.form is Some {
        s.form->0
    } else {
        Seq::empty()
    }
}

/// A map that names the query, the headers or the form with an object holds exactly where every key
/// of the object is in the list, the first such with a value that holds; and under a deep rule only
/// where the list has no more entries. Without an object it asks for nothing.
pub proof fn law_lists_are_held_key_by_key(
    rule: Rule,
    name: Seq<char>,
    want: Seq<(Seq<char>, JsonModel)>,
    s: SubjectModel,
)
    requires
        name == "query"@ || name == "headers"@ || name == "form"@,
    ensures
        fields_hold(rule, seq![(name, JsonModel::Object(want))], s) <==> (rule.deep ==> want.len()
            == list_named(s, name).len()) && forall|i: int|
            0 <= i < want.len() ==> #[trigger] first_value_holds(
                rule,
                list_named(s, name),
                want[i],
            ),
        fields_hold(rule, seq![(name, JsonModel::Bool(rule.deep))], s),
        fields_hold(rule, seq![(name, JsonModel::Text(name))], s),
{
    lemma_names_apart();
    let one = seq![(name, JsonModel::Object(want))];
    assert forall|w: JsonModel, b: Seq<char>| #[trigger]
        lookup::find_entry(seq![(name, w)], b, true) == (if b == name {
            Some(w)
        } else {
            None
        }) by {
        lemma_find_single(name, w, b);
    }
    let list = list_named(s, name);
    assert forall|i: int| 0 <= i < want.len() implies (#[trigger] first_value_holds(
        rule,
        list,
        want[i],
    ) <==> match lookup::find_entry(list, want[i].0, rule.key_case_sensitive) {
        Some(v) => compare::leaf_holds(rule, expected_text(want[i].1), v),
        None => false,
    }) by {
        lemma_first_value(rule, list, want[i]);
    }
    if fields_hold(rule, one, s) {
        assert(list_holds(rule, one, name, list));
        assert forall|i: int| 0 <= i < want.len() implies #[trigger] first_value_holds(
            rule,
            list,
            want[i],
        ) by {
            assert(want[i] == want[i]);
        }
    }
    if (rule.deep ==> want.len() == list.len()) && forall|i: int|
        0 <= i < want.len() ==> #[trigger] first_value_holds(rule, list, want[i]) {
        assert forall|i: int| 0 <= i < want.len() implies match lookup::find_entry(
            list,
            (#[trigger] want[i]).0,
            rule.key_case_sensitive,
        ) {
            Some(v) => compare::leaf_holds(rule, expected_text(want[i].1), v),
            None => false,
        } by {
            assert(first_value_holds(rule, list, want[i]));
        }
        assert(list_holds(rule, one, name, list));
    }
}

/// Whether the first entry under a key holds what is expected of it.
pub open spec fn first_value_holds(
    rule: Rule,
    list: Seq<(Seq<char>, Seq<char>)>,
    want: (Seq<char>, JsonModel),
) -> bool {
    exists|j: int|
        0 <= j < list.len() && text::text_eq(
            (#[trigger] list[j]).0,
            want.0,
            rule.key_case_sensitive,
        ) && (forall|k: int|
            0 <= k < j ==> !text::text_eq(
                (#[trigger] list[k]).0,
                want.0,
                rule.key_case_sensitive,
            )) && compare::leaf_holds(rule, expected_text(want.1), list[j].1)
}

proof fn lemma_first_value(
    rule: Rule,
    list: Seq<(Seq<char>, Seq<char>)>,
    want: (Seq<char>, JsonModel),
)
    ensures
        first_value_holds(rule, list, want) <==> match lookup::find_entry(
            list,
            want.0,
            rule.key_case_sensitive,
        ) {
            Some(v) => compare::leaf_holds(rule, expected_text(want.1), v),
            None => false,
        },
{
    let key = want.0;
    let case = rule.key_case_sensitive;
    if first_value_holds(rule, list, want) {
        let j = choose|j: int|
            0 <= j < list.len() && text::text_eq((#[trigger] list[j]).0, key, case) && (forall|
                k: int,
            |
                0 <= k < j ==> !text::text_eq((#[trigger] list[k]).0, key, case))
                && compare::leaf_holds(rule, expected_text(want.1), list[j].1);
        lookup::lemma_find_at(list, key, case, j);
    }
    if lookup::find_entry(list, key, case) is Some {
        let j = lemma_found_first(list, key, case);
        assert(text::text_eq(list[j].0, key, case));
    }
}

proof fn lemma_found_first(
    list: Seq<(Seq<char>, Seq<char>)>,
    key: Seq<char>,
    case_sensitive: bool,
) -> (at: int)
    requires
        lookup::find_entry(list, key, case_sensitive) is Some,
    ensures
        0 <= at < list.len(),
        text::text_eq(list[at].0, key, case_sensitive),
        forall|k: int|
            0 <= k < at ==> !text::text_eq((#[trigger] list[k]).0, key, case_sensitive),
        lookup::find_entry(list, key, case_sensitive) == Some(list[at].1),
    decreases list.len(),
{
    if text::text_eq(list[0].0, key, case_sensitive) {
        0
    } else {
        let rest = list.drop_first();
        let at = lemma_found_first(rest, key, case_sensitive);
        assert forall|k: int| 0 <= k < at + 1 implies !text::text_eq(
            (#[trigger] list[k]).0,
            key,
            case_sensitive,
        ) by {
            if k > 0 {
                assert(rest[k - 1] == list[k]);
            }
        }
        at + 1
    }
}

proof fn lemma_find_joined(
    a: Seq<(Seq<char>, JsonModel)>,
    b: Seq<(Seq<char>, JsonModel)>,
    key: Seq<char>,
)
    ensures
        lookup::find_entry(a + b, key, true) == (if lookup::find_entry(a, key, true) is Some {
            lookup::find_entry(a, key, true)
        } else {
            lookup::find_entry(b, key, true)
        }),
    decreases a.len(),
{
    if a.len() == 0 {
        assert(a + b =~= b);
    } else {
        assert((a + b)[0] == a[0]);
        assert((a + b).drop_first() =~= a.drop_first() + b);
        lemma_find_joined(a.drop_first(), b, key);
    }
}

/// Fields are asked for one by one: a map of two maps that name no field in common holds exactly
/// where both do, and a map that names none holds always.
pub proof fn law_fields_are_asked_for_one_by_one(
    rule: Rule,
    a: Seq<(Seq<char>, JsonModel)>,
    b: Seq<(Seq<char>, JsonModel)>,
    s: SubjectModel,
    key_case_sensitive: bool,
)
    requires
        forall|key: Seq<char>|
            lookup::find_entry(a, key, true) is Some ==> #[trigger] lookup::find_entry(
                b,
                key,
                true,
            ) is None,
    ensures
        fields_hold(rule, a + b, s) <==> fields_hold(rule, a, s) && fields_hold(rule, b, s),
        exists_hold(a + b, s, key_case_sensitive) <==> exists_hold(a, s, key_case_sensitive)
            && exists_hold(b, s, key_case_sensitive),
        fields_hold(rule, Seq::empty(), s),
        exists_hold(Seq::empty(), s, key_case_sensitive),
{
    assert forall|key: Seq<char>| #[trigger]
        lookup::find_entry(a + b, key, true) == (if lookup::find_entry(a, key, true) is Some {
            lookup::find_entry(a, key, true)
        } else {
            lookup::find_entry(b, key, true)
        }) by {
        lemma_find_joined(a, b, key);
    }
    let names = seq![
        "method"@,
        "path"@,
        "requestFrom"@,
        "ip"@,
        "body"@,
        "query"@,
        "headers"@,
        "form"@,
    ];
    assert(lookup::find_entry(a, "method"@, true) is Some ==> lookup::find_entry(
        b,
        "method"@,
        true,
    ) is None);
    assert(lookup::find_entry(a, "path"@, true) is Some ==> lookup::find_entry(b, "path"@, true)
        is None);
    assert(lookup::find_entry(a, "requestFrom"@, true) is Some ==> lookup::find_entry(
        b,
        "requestFrom"@,
        true,
    ) is None);
    assert(lookup::find_entry(a, "ip"@, true) is Some ==> lookup::find_entry(b, "ip"@, true)
        is None);
    assert(lookup::find_entry(a, "body"@, true) is Some ==> lookup::find_entry(b, "body"@, true)
        is None);
    assert(lookup::find_entry(a, "query"@, true) is Some ==> lookup::find_entry(b, "query"@, true)
        is None);
    assert(lookup::find_entry(a, "headers"@, true) is Some ==> lookup::find_entry(
        b,
        "headers"@,
        true,
    ) is None);
    assert(lookup::find_entry(a, "form"@, true) is Some ==> lookup::find_entry(b, "form"@, true)
        is None);
}

/// A field that is a text exists where it is not empty: asked for with `false` it is to be empty,
/// and asked for with anything else it is not to be.
pub proof fn law_a_text_field_exists_where_it_is_not_empty(
    want: JsonModel,
    s: SubjectModel,
    key_case_sensitive: bool,
)
    ensures
        exists_hold(seq![("method"@, want)], s, key_case_sensitive) <==> (s.method.len() == 0
            <==> want == JsonModel::Bool(false)),
        exists_hold(seq![("path"@, want)], s, key_case_sensitive) <==> (s.path.len() == 0 <==> want
            == JsonModel::Bool(false)),
        exists_hold(seq![("requestFrom"@, want)], s, key_case_sensitive) <==> ((s.request_from
            is None || s.request_from->0.len() == 0) <==> want == JsonModel::Bool(false)),
        exists_hold(seq![("ip"@, want)], s, key_case_sensitive) <==> ((s.client_ip is None
            || s.client_ip->0.len() == 0) <==> want == JsonModel::Bool(false)),
        exists_hold(seq![("body"@, want)], s, key_case_sensitive) <==> compare::existence_holds(
            want,
            s.body,
        ),
{
    lemma_names_apart();
    assert forall|a: Seq<char>, b: Seq<char>| #[trigger]
        lookup::find_entry(seq![(a, want)], b, true) == (if b == a {
            Some(want)
        } else {
            None
        }) by {
        lemma_find_single(a, want, b);
    }
}

/// Each key asked for in a list is to be there, or, asked for with `false`, not to be.
pub proof fn law_list_keys_exist_as_asked(
    name: Seq<char>,
    want: Seq<(Seq<char>, JsonModel)>,
    s: SubjectModel,
    key_case_sensitive: bool,
)
    requires
        name == "query"@ || name == "headers"@ || name == "form"@,
    ensures
        exists_hold(seq![(name, JsonModel::Object(want))], s, key_case_sensitive) <==> forall|
            i: int,
        |
            0 <= i < want.len() ==> ((#[trigger] want[i]).1 != JsonModel::Bool(false)
                <==> lookup::has_key(list_named(s, name), want[i].0, key_case_sensitive)),
{
    lemma_names_apart();
    assert forall|w: JsonModel, b: Seq<char>| #[trigger]
        lookup::find_entry(seq![(name, w)], b, true) == (if b == name {
            Some(w)
        } else {
            None
        }) by {
        lemma_find_single(name, w, b);
    }
    let one = seq![(name, JsonModel::Object(want))];
    let list = list_named(s, name);
    assert(exists_hold(one, s, key_case_sensitive) <==> keys_presence_holds(
        one,
        name,
        list,
        key_case_sensitive,
    ));
    assert forall|i: int| 0 <= i < want.len() implies (asks_presence((#[trigger] want[i]).1)
        <==> want[i].1 != JsonModel::Bool(false)) by {
        if let JsonModel::Bool(b) = want[i].1 {
            assert(b || want[i].1 == JsonModel::Bool(false));
        }
    }
    assert(lookup::find_entry(one, name, true) == Some(JsonModel::Object(want)));
}

/// What is expected of a text is the string as it is, and of any other value its JSON text.
pub proof fn law_expected_strings_are_raw(s: Seq<char>, m: JsonModel)
    ensures
        expected_text(JsonModel::Text(s)) == s,
        m !is Text ==> expected_text(m) == json::json_text(m),
{
}

} // verus!
