//! JSON values.
//!
//! [`Json`] is the value the matcher works on and [`JsonModel`] what contracts say of it. Reading
//! and writing JSON text is `serde_json`'s work; this module converts between its values and
//! [`Json`] node by node.

use crate::lookup;
use crate::text;
use vstd::prelude::*;

verus! {

/// A JSON value as contracts see it. A number is known by its decimal text.
pub enum JsonModel {
    Null,
    Bool(bool),
    Number(Seq<char>),
    Text(Seq<char>),
    Array(Seq<JsonModel>),
    Object(Seq<(Seq<char>, JsonModel)>),
}

/// A JSON value.
#[derive(Debug)]
pub enum Json {
    Null,
    Bool(bool),
    Number(serde_json::Number),
    Text(String),
    Array(Vec<Json>),
    Object(JsonObject),
}

/// A JSON object: its members in order, no key twice.
#[derive(Debug)]
pub struct JsonObject {
    entries: Vec<(String, Json)>,
}

/// `serde_json::Value`, opaque: contracts speak of it through [`json_model`].
#[verifier::external_type_specification]
#[verifier::external_body]
pub struct ExValue(serde_json::Value);

/// `serde_json::Number`, opaque: contracts speak of it through [`number_text`].
#[verifier::external_type_specification]
#[verifier::external_body]
pub struct ExNumber(serde_json::Number);

/// What a `serde_json::Value` holds.
pub uninterp spec fn json_model(v: serde_json::Value) -> JsonModel;

/// The text `serde_json::Number` prints.
pub uninterp spec fn number_text(n: serde_json::Number) -> Seq<char>;

/// What `serde_json::from_str` reads from a text: `None` where it reports an error.
pub uninterp spec fn json_parse(s: Seq<char>) -> Option<JsonModel>;

/// What a text is read as; an empty text is nothing.
pub open spec fn json_read(s: Seq<char>) -> Option<JsonModel> {
    if s.len() == 0 {
        None
    } else {
        json_parse(s)
    }
}

/// The compact text `serde_json::Value` prints.
pub uninterp spec fn json_text(m: JsonModel) -> Seq<char>;

/// The characters Unicode counts as white space.
pub open spec fn is_space(c: char) -> bool {
    let n = c as u32;
    ||| 9 <= n <= 13
    ||| n == 0x20
    ||| n == 0x85
    ||| n == 0xa0
    ||| n == 0x1680
    ||| 0x2000 <= n <= 0x200a
    ||| n == 0x2028
    ||| n == 0x2029
    ||| n == 0x202f
    ||| n == 0x205f
    ||| n == 0x3000
}

/// After leading white space, the text opens with `{` or `[`.
pub open spec fn jsonish(s: Seq<char>) -> bool {
    exists|k: int|
        0 <= k < s.len() && (s[k] == '{' || s[k] == '[') && forall|j: int|
            0 <= j < k ==> is_space(#[trigger] s[j])
}

/// No key stands twice.
pub open spec fn distinct_keys(entries: Seq<(Seq<char>, JsonModel)>) -> bool {
    forall|i: int, j: int|
        0 <= i < j < entries.len() ==> #[trigger] entries[i].0 != #[trigger] entries[j].0
}

/// A run of one to eighteen decimal digits.
pub open spec fn short_digits(d: Seq<char>) -> bool {
    0 < d.len() <= 18 && forall|i: int| 0 <= i < d.len() ==> '0' <= #[trigger] d[i] <= '9'
}

/// A decimal integer of at most eighteen digits, without a leading zero.
pub open spec fn plain_integer(t: Seq<char>) -> bool {
    if t.len() > 0 && t[0] == '-' {
        short_digits(t.skip(1)) && t[1] != '0'
    } else {
        short_digits(t) && (t[0] == '0' ==> t.len() == 1)
    }
}

/// Nested at most `depth` deep, with plain integers only and no key twice.
pub open spec fn plain_within(m: JsonModel, depth: nat) -> bool
    decreases m,
{
    match m {
        JsonModel::Number(t) => plain_integer(t),
        JsonModel::Array(items) => depth > 0 && forall|i: int|
            0 <= i < items.len() ==> plain_within(#[trigger] items[i], (depth - 1) as nat),
        JsonModel::Object(entries) => depth > 0 && distinct_keys(entries) && forall|i: int|
            0 <= i < entries.len() ==> plain_within((#[trigger] entries[i]).1, (depth - 1) as nat),
        _ => true,
    }
}

/// A value that `serde_json` reads back from its own text: nothing in it is a fraction, an
/// exponent or a very long integer, and it nests a hundred levels at most.
pub open spec fn plain(m: JsonModel) -> bool {
    plain_within(m, 100)
}

/// What holds of every value that `serde_json` reads or holds.
///
/// A number's text starts with a digit or a minus sign. A leaf whose text would itself read as an
/// object or an array opens with a bracket. The text of an object or an array opens with its
/// bracket, and reads back to the same value where that value is [`plain`].
pub open spec fn well_read(m: JsonModel) -> bool
    decreases m,
{
    match m {
        JsonModel::Array(items) => {
            &&& json_text(m).len() > 0 && json_text(m)[0] == '['
            &&& plain(m) ==> json_read(json_text(m)) == Some(m)
            &&& forall|i: int| 0 <= i < items.len() ==> well_read(#[trigger] items[i])
        },
        JsonModel::Object(entries) => {
            &&& json_text(m).len() > 0 && json_text(m)[0] == '{'
            &&& plain(m) ==> json_read(json_text(m)) == Some(m)
            &&& distinct_keys(entries)
            &&& forall|i: int| 0 <= i < entries.len() ==> well_read((#[trigger] entries[i]).1)
        },
        _ => {
            &&& is_container(json_read(leaf_text(m))) ==> jsonish(leaf_text(m))
            &&& m matches JsonModel::Number(t) ==> t.len() > 0 && (t[0] == '-' || '0' <= t[0]
                <= '9')
        },
    }
}

/// A value was read, and it is an object or an array.
pub open spec fn is_container(m: Option<JsonModel>) -> bool {
    m is Some && (m->0 is Array || m->0 is Object)
}

/// The text a value is compared by.
pub open spec fn leaf_text(m: JsonModel) -> Seq<char> {
    match m {
        JsonModel::Text(s) => s,
        JsonModel::Number(t) => t,
        JsonModel::Bool(b) => if b {
            "true"@
        } else {
            "false"@
        },
        JsonModel::Null => Seq::empty(),
        _ => json_text(m),
    }
}

/// Whether a number's text is a zero with a fraction, of either sign.
pub open spec fn fraction_zero(t: Seq<char>) -> bool {
    t == "0.0"@ || t == "-0.0"@
}

/// Whether two values are equal: numbers as printed, but for the sign of a zero; objects whatever
/// the order of their members.
pub open spec fn json_same(a: JsonModel, b: JsonModel) -> bool
    decreases a,
{
    match (a, b) {
        (JsonModel::Null, JsonModel::Null) => true,
        (JsonModel::Bool(x), JsonModel::Bool(y)) => x == y,
        (JsonModel::Number(s), JsonModel::Number(t)) => s == t || (fraction_zero(s)
            && fraction_zero(t)),
        (JsonModel::Text(s), JsonModel::Text(t)) => s == t,
        (JsonModel::Array(xs), JsonModel::Array(ys)) => xs.len() == ys.len() && forall|i: int|
            0 <= i < xs.len() ==> json_same(#[trigger] xs[i], ys[i]),
        (JsonModel::Object(xs), JsonModel::Object(ys)) => xs.len() == ys.len() && forall|i: int|
            0 <= i < xs.len() ==> match lookup::find_entry(ys, (#[trigger] xs[i]).0, true) {
                Some(v) => json_same(xs[i].1, v),
                None => false,
            },
        _ => false,
    }
}

/// One node of a `serde_json::Value`, with its children as they are.
pub enum JsonNode<'a> {
    Null,
    Bool(bool),
    Number(&'a serde_json::Number),
    Text(&'a String),
    Array(&'a Vec<serde_json::Value>),
    Object(Vec<(&'a String, &'a serde_json::Value)>),
}

/// The value a node stands for.
pub open spec fn node_model(n: JsonNode<'_>) -> JsonModel {
    match n {
        JsonNode::Null => JsonModel::Null,
        JsonNode::Bool(b) => JsonModel::Bool(b),
        JsonNode::Number(n) => JsonModel::Number(number_text(*n)),
        JsonNode::Text(s) => JsonModel::Text(s@),
        JsonNode::Array(items) => JsonModel::Array(
            Seq::new(items@.len(), |i: int| json_model(items@[i])),
        ),
        JsonNode::Object(entries) => JsonModel::Object(
            Seq::new(entries@.len(), |i: int| (entries@[i].0@, json_model(*entries@[i].1))),
        ),
    }
}

/// Reads a JSON text with `serde_json::from_str`, dropping the reason of a failure. What it reads
/// is a function of the text, and is a value as [`well_read`] describes it; an empty text is an
/// error.
#[verifier::external_body]
fn read_value(s: &str) -> (r: Option<serde_json::Value>)
    ensures
        (match r {
            Some(v) => json_parse(s@) == Some(json_model(v)) && s@.len() > 0 && well_read(
                json_model(v),
            ),
            None => json_parse(s@) is None,
        }),
{
    serde_json::from_str(s).ok()
}

/// Writes a value with `serde_json::Value`'s `Display`, compactly.
#[verifier::external_body]
fn write_value(v: &serde_json::Value) -> (r: String)
    ensures
        r@ == json_text(json_model(*v)),
{
    v.to_string()
}

/// Tells the variants of `serde_json::Value` apart and hands out the children; an object's members
/// come in the order `serde_json::Map::iter` walks them, each key once.
#[verifier::external_body]
fn open_value(v: &serde_json::Value) -> (r: JsonNode<'_>)
    ensures
        node_model(r) == json_model(*v),
        r matches JsonNode::Object(entries) ==> distinct_keys(json_model(*v)->Object_0),
{
    match v {
        serde_json::Value::Null => JsonNode::Null,
        serde_json::Value::Bool(b) => JsonNode::Bool(*b),
        serde_json::Value::Number(n) => JsonNode::Number(n),
        serde_json::Value::String(s) => JsonNode::Text(s),
        serde_json::Value::Array(items) => JsonNode::Array(items),
        serde_json::Value::Object(map) => JsonNode::Object(map.iter().collect()),
    }
}

/// One node of a `serde_json::Value` to be, with its children built.
pub enum JsonParts {
    Null,
    Bool(bool),
    Number(serde_json::Number),
    Text(String),
    Array(Vec<serde_json::Value>),
    Object(Vec<(String, serde_json::Value)>),
}

/// The value the parts make.
pub open spec fn parts_model(p: JsonParts) -> JsonModel {
    match p {
        JsonParts::Null => JsonModel::Null,
        JsonParts::Bool(b) => JsonModel::Bool(b),
        JsonParts::Number(n) => JsonModel::Number(number_text(n)),
        JsonParts::Text(s) => JsonModel::Text(s@),
        JsonParts::Array(items) => JsonModel::Array(
            Seq::new(items@.len(), |i: int| json_model(items@[i])),
        ),
        JsonParts::Object(entries) => JsonModel::Object(
            Seq::new(entries@.len(), |i: int| (entries@[i].0@, json_model(entries@[i].1))),
        ),
    }
}

/// Builds the variant of `serde_json::Value` that the parts ask for. An object's members go into a
/// `serde_json::Map` in order, so no key may stand twice. The value is as [`well_read`] describes
/// those that are read: a `serde_json::Value` prints and reads back alike whether it was built or
/// read.
#[verifier::external_body]
fn close_value(p: JsonParts) -> (r: serde_json::Value)
    requires
        p is Object ==> distinct_keys(parts_model(p)->Object_0),
    ensures
        json_model(r) == parts_model(p),
        well_read(json_model(r)),
{
    match p {
        JsonParts::Null => serde_json::Value::Null,
        JsonParts::Bool(b) => serde_json::Value::Bool(b),
        JsonParts::Number(n) => serde_json::Value::Number(n),
        JsonParts::Text(s) => serde_json::Value::String(s),
        JsonParts::Array(items) => serde_json::Value::Array(items),
        JsonParts::Object(entries) => serde_json::Value::Object(entries.into_iter().collect()),
    }
}

/// Prints a number with `serde_json::Number`'s `Display`: its text starts with a digit or a minus
/// sign.
#[verifier::external_body]
fn write_number(n: &serde_json::Number) -> (r: String)
    ensures
        r@ == number_text(*n),
        r@.len() > 0 && (r@[0] == '-' || '0' <= r@[0] <= '9'),
{
    n.to_string()
}

/// `serde_json::Number::clone` gives a number that prints alike.
pub assume_specification[ <serde_json::Number as std::clone::Clone>::clone ](
    n: &serde_json::Number,
) -> (r: serde_json::Number)
    ensures
        number_text(r) == number_text(*n),
;

/// `serde_json::Number::from` of an unsigned integer prints as its decimal digits.
#[verifier::external_body]
fn number_of(n: u64) -> (r: serde_json::Number)
    ensures
        number_text(r) == text::decimal(n as nat),
{
    serde_json::Number::from(n)
}

/// `serde_json::Number`'s `==`: numbers that print alike are equal, and the two fractional zeros
/// are.
#[verifier::external_body]
fn numbers_equal(a: &serde_json::Number, b: &serde_json::Number) -> (r: bool)
    ensures
        r == (number_text(*a) == number_text(*b) || (fraction_zero(number_text(*a))
            && fraction_zero(number_text(*b)))),
{
    a == b
}

/// No name among members stands twice.
pub open spec fn distinct_names(entries: Seq<(String, Json)>) -> bool {
    forall|i: int, j: int|
        0 <= i < j < entries.len() ==> #[trigger] entries[i].0@ != #[trigger] entries[j].0@
}

impl JsonObject {
    #[verifier::type_invariant]
    spec fn inv(self) -> bool {
        distinct_names(self.entries@)
    }

    /// The members in order.
    pub closed spec fn members(&self) -> Seq<(String, Json)> {
        self.entries@
    }

    /// The members in order, as contracts see them.
    pub closed spec fn view(&self) -> Seq<(Seq<char>, JsonModel)>
        decreases self,
    {
        Seq::new(
            self.entries@.len(),
            |i: int|
                if 0 <= i < self.entries@.len() {
                    (self.entries@[i].0@, self.entries@[i].1.model())
                } else {
                    arbitrary()
                },
        )
    }
}

impl JsonObject {
    /// An object without members.
    pub fn new() -> (r: Self)
        ensures
            r@ == Seq::<(Seq<char>, JsonModel)>::empty(),
    {
        let r = JsonObject { entries: Vec::new() };
        proof {
            assert(r@ =~= Seq::<(Seq<char>, JsonModel)>::empty());
        }
        r
    }

    /// How many members there are.
    pub fn len(&self) -> (n: usize)
        ensures
            n == self@.len(),
    {
        self.entries.len()
    }

    /// Whether there are no members.
    pub fn is_empty(&self) -> (r: bool)
        ensures
            r == (self@.len() == 0),
    {
        self.entries.len() == 0
    }

    /// The key of member `i`.
    pub fn key_at(&self, i: usize) -> (k: &String)
        requires
            i < self@.len(),
        ensures
            k@ == self@[i as int].0,
    {
        &self.entries[i].0
    }

    /// The value of member `i`.
    pub fn value_at(&self, i: usize) -> (v: &Json)
        requires
            i < self@.len(),
        ensures
            v.model() == self@[i as int].1,
    {
        &self.entries[i].1
    }

    /// The value under `key`.
    pub fn get(&self, key: &str) -> (r: Option<&Json>)
        ensures
            (match r {
                Some(v) => lookup::find_entry(self@, key@, true) == Some(v.model()),
                None => lookup::find_entry(self@, key@, true) is None,
            }),
    {
        self.find(key, true)
    }

    /// The value of the first member whose key compares equal to `key`.
    pub fn find(&self, key: &str, case_sensitive: bool) -> (r: Option<&Json>)
        ensures
            (match r {
                Some(v) => lookup::find_entry(self@, key@, case_sensitive) == Some(v.model()),
                None => lookup::find_entry(self@, key@, case_sensitive) is None,
            }),
    {
        let mut i: usize = 0;
        while i < self.entries.len()
            invariant
                i <= self.entries@.len(),
                self@.len() == self.entries@.len(),
                forall|j: int|
                    0 <= j < i ==> !text::text_eq((#[trigger] self@[j]).0, key@, case_sensitive),
            decreases self.entries@.len() - i,
        {
            if text::texts_equal(self.key_at(i).as_str(), key, case_sensitive) {
                proof {
                    lookup::lemma_find_at(self@, key@, case_sensitive, i as int);
                }
                return Some(self.value_at(i));
            }
            i += 1;
        }
        proof {
            lookup::lemma_find_none(self@, key@, case_sensitive);
        }
        None
    }

    /// Puts `value` under `key`: in the place of the value that stood there, else at the end.
    pub fn insert(&mut self, key: String, value: Json)
        ensures
            final(self)@ == with_entry(old(self)@, key@, value.model()),
    {
        let mut entries: Vec<(String, Json)> = Vec::new();
        proof {
            use_type_invariant(&*self);
        }
        let ghost before = self@;
        std::mem::swap(&mut self.entries, &mut entries);
        let ghost names = entries@;
        let mut i: usize = 0;
        while i < entries.len()
            invariant
                entries@ == names,
                distinct_names(names),
                before == old(self)@,
                before.len() == names.len(),
                forall|j: int|
                    0 <= j < names.len() ==> #[trigger] before[j] == (
                        names[j].0@,
                        names[j].1.model(),
                    ),
                i <= names.len(),
                forall|j: int| 0 <= j < i ==> (#[trigger] names[j]).0@ != key@,
            decreases names.len() - i,
        {
            if text::same_text(entries[i].0.as_str(), key.as_str()) {
                entries.set(i, (key, value));
                proof {
                    assert forall|a: int, b: int| 0 <= a < b < entries@.len() implies
                        #[trigger] entries@[a].0@ != #[trigger] entries@[b].0@ by {
                        assert(names[a].0@ != names[b].0@);
                    }
                }
                self.entries = entries;
                proof {
                    assert(before.len() == names.len());
                    lemma_with_entry_at(before, key@, value.model(), i as int);
                    assert(self@ =~= before.update(i as int, (key@, value.model())));
                }
                return;
            }
            i += 1;
        }
        entries.push((key, value));
        self.entries = entries;
        proof {
            lemma_with_entry_new(before, key@, value.model());
            assert(self@ =~= before.push((key@, value.model())));
        }
    }

    /// Whether two objects are equal, whatever the order of their members.
    pub fn same(&self, other: &JsonObject) -> (r: bool)
        ensures
            r == json_same(JsonModel::Object(self@), JsonModel::Object(other@)),
        decreases self@,
    {
        if self.len() != other.len() {
            return false;
        }
        let n: usize = self.len();
        let mut i: usize = 0;
        while i < n
            invariant
                n == self@.len() == other@.len(),
                i <= n,
                forall|k: int|
                    0 <= k < i ==> match lookup::find_entry(other@, (#[trigger] self@[k]).0, true) {
                        Some(v) => json_same(self@[k].1, v),
                        None => false,
                    },
            decreases n - i,
        {
            let mine: &Json = self.value_at(i);
            match other.get(self.key_at(i).as_str()) {
                Some(theirs) => {
                    proof {
                        assert(self@[i as int].1 == mine.model());
                    }
                    if !mine.same(theirs) {
                        return false;
                    }
                },
                None => {
                    proof {
                        assert(lookup::find_entry(other@, self@[i as int].0, true) is None);
                    }
                    return false;
                },
            }
            i += 1;
        }
        true
    }

    /// Whether two objects have the same members in the same order, numbers printing alike.
    pub fn identical(&self, other: &JsonObject) -> (r: bool)
        ensures
            r == (self@ == other@),
        decreases self@,
    {
        if self.len() != other.len() {
            return false;
        }
        let n: usize = self.len();
        let mut i: usize = 0;
        while i < n
            invariant
                n == self@.len() == other@.len(),
                i <= n,
                forall|k: int| 0 <= k < i ==> #[trigger] self@[k] == other@[k],
            decreases n - i,
        {
            let mine: &Json = self.value_at(i);
            proof {
                assert(self@[i as int].1 == mine.model());
            }
            if !text::same_text(self.key_at(i).as_str(), other.key_at(i).as_str())
                || !mine.identical(other.value_at(i)) {
                proof {
                    assert(self@[i as int] != other@[i as int]);
                }
                return false;
            }
            i += 1;
        }
        proof {
            assert(self@ =~= other@);
        }
        true
    }

    /// A copy.
    pub fn copy(&self) -> (r: Self)
        ensures
            r@ == self@,
        decreases self@,
    {
        proof {
            use_type_invariant(self);
        }
        let mut out: Vec<(String, Json)> = Vec::new();
        let mut i: usize = 0;
        while i < self.entries.len()
            invariant
                i <= self.entries@.len(),
                distinct_names(self.entries@),
                out@.len() == i,
                forall|k: int|
                    0 <= k < i ==> (#[trigger] out@[k]).0@ == self.entries@[k].0@
                        && out@[k].1.model() == self.entries@[k].1.model(),
            decreases self.entries@.len() - i,
        {
            let entry = &self.entries[i];
            proof {
                assert(self@[i as int].1 == entry.1.model());
            }
            out.push((entry.0.clone(), entry.1.copy()));
            i += 1;
        }
        proof {
            assert forall|a: int, b: int| 0 <= a < b < out@.len() implies #[trigger] out@[a].0@
                != #[trigger] out@[b].0@ by {
                assert(self.entries@[a].0@ != self.entries@[b].0@);
            }
        }
        let r = JsonObject { entries: out };
        proof {
            assert(r@ =~= self@);
        }
        r
    }
}

/// The members after `value` is put under `key`.
pub open spec fn with_entry<T>(
    entries: Seq<(Seq<char>, T)>,
    key: Seq<char>,
    value: T,
) -> Seq<(Seq<char>, T)>
    decreases entries.len(),
{
    if entries.len() == 0 {
        seq![(key, value)]
    } else if entries[0].0 == key {
        entries.update(0, (key, value))
    } else {
        seq![entries[0]] + with_entry(entries.drop_first(), key, value)
    }
}

/// A key that is there keeps its place.
pub proof fn lemma_with_entry_at<T>(entries: Seq<(Seq<char>, T)>, key: Seq<char>, value: T, at: int)
    requires
        0 <= at < entries.len(),
        entries[at].0 == key,
        forall|i: int| 0 <= i < at ==> (#[trigger] entries[i]).0 != key,
    ensures
        with_entry(entries, key, value) == entries.update(at, (key, value)),
    decreases entries.len(),
{
    if at > 0 {
        assert(entries[0].0 != key);
        let rest = entries.drop_first();
        assert forall|i: int| 0 <= i < at - 1 implies (#[trigger] rest[i]).0 != key by {
            assert(rest[i] == entries[i + 1]);
        }
        lemma_with_entry_at(rest, key, value, at - 1);
        assert(seq![entries[0]] + rest.update(at - 1, (key, value)) =~= entries.update(
            at,
            (key, value),
        ));
    }
}

/// A new key comes last.
pub proof fn lemma_with_entry_new<T>(entries: Seq<(Seq<char>, T)>, key: Seq<char>, value: T)
    requires
        forall|i: int| 0 <= i < entries.len() ==> (#[trigger] entries[i]).0 != key,
    ensures
        with_entry(entries, key, value) == entries.push((key, value)),
    decreases entries.len(),
{
    if entries.len() > 0 {
        assert(entries[0].0 != key);
        let rest = entries.drop_first();
        assert forall|i: int| 0 <= i < rest.len() implies (#[trigger] rest[i]).0 != key by {
            assert(rest[i] == entries[i + 1]);
        }
        lemma_with_entry_new(rest, key, value);
        assert(seq![entries[0]] + rest.push((key, value)) =~= entries.push((key, value)));
    } else {
        assert(seq![(key, value)] =~= entries.push((key, value)));
    }
}

impl Json {
    /// The value as contracts see it.
    pub closed spec fn model(&self) -> JsonModel
        decreases self,
    {
        match self {
            Json::Null => JsonModel::Null,
            Json::Bool(b) => JsonModel::Bool(*b),
            Json::Number(n) => JsonModel::Number(number_text(*n)),
            Json::Text(s) => JsonModel::Text(s@),
            Json::Array(items) => JsonModel::Array(
                Seq::new(
                    items@.len(),
                    |i: int|
                        if 0 <= i < items@.len() {
                            items@[i].model()
                        } else {
                            arbitrary()
                        },
                ),
            ),
            Json::Object(obj) => JsonModel::Object(obj.view()),
        }
    }

    /// The object, where this is one.
    pub fn as_object(&self) -> (r: Option<&JsonObject>)
        ensures
            (match r {
                Some(o) => self.model() == JsonModel::Object(o@),
                None => !(self.model() is Object),
            }),
    {
        match self {
            Json::Object(o) => Some(o),
            _ => None,
        }
    }

    /// The items, where this is an array.
    pub fn as_array(&self) -> (r: Option<&Vec<Json>>)
        ensures
            (match r {
                Some(items) => self.model() is Array && items@.len()
                    == self.model()->Array_0.len() && forall|i: int|
                    0 <= i < items@.len() ==> (#[trigger] items@[i]).model()
                        == self.model()->Array_0[i],
                None => !(self.model() is Array),
            }),
    {
        match self {
            Json::Array(items) => Some(items),
            _ => None,
        }
    }

    /// The text, where this is a string.
    pub fn as_text(&self) -> (r: Option<&String>)
        ensures
            (match r {
                Some(s) => self.model() == JsonModel::Text(s@),
                None => !(self.model() is Text),
            }),
    {
        match self {
            Json::Text(s) => Some(s),
            _ => None,
        }
    }

    /// The boolean, where this is one.
    pub fn as_bool(&self) -> (r: Option<bool>)
        ensures
            (match r {
                Some(b) => self.model() == JsonModel::Bool(b),
                None => !(self.model() is Bool),
            }),
    {
        match self {
            Json::Bool(b) => Some(*b),
            _ => None,
        }
    }

    /// A string value.
    pub fn text(s: &str) -> (r: Json)
        ensures
            r.model() == JsonModel::Text(s@),
    {
        Json::Text(s.to_owned())
    }

    /// A boolean value.
    pub fn bool(b: bool) -> (r: Json)
        ensures
            r.model() == JsonModel::Bool(b),
    {
        Json::Bool(b)
    }

    /// An object value.
    pub fn object(o: JsonObject) -> (r: Json)
        ensures
            r.model() == JsonModel::Object(o@),
    {
        Json::Object(o)
    }

    /// An object with one member.
    pub fn object_with(key: &str, value: Json) -> (r: Json)
        ensures
            r.model() == JsonModel::Object(seq![(key@, value.model())]),
    {
        let mut o: JsonObject = JsonObject::new();
        let ghost m = value.model();
        o.insert(key.to_owned(), value);
        proof {
            assert(o@ =~= seq![(key@, m)]);
        }
        Json::Object(o)
    }

    /// An array with one item.
    pub fn array_of(item: Json) -> (r: Json)
        ensures
            r.model() == JsonModel::Array(seq![item.model()]),
    {
        let ghost m = item.model();
        let mut items: Vec<Json> = Vec::new();
        items.push(item);
        let r = Json::Array(items);
        proof {
            assert(r.model()->Array_0 =~= seq![m]);
        }
        r
    }

    /// The unsigned integer a number is, where it prints as one.
    pub fn as_count(&self) -> (r: Option<u64>)
        ensures
            (match r {
                Some(n) => self.model() == JsonModel::Number(text::decimal(n as nat)),
                None => forall|n: u64|
                    self.model() != JsonModel::Number(#[trigger] text::decimal(n as nat)),
            }),
    {
        match self {
            Json::Number(n) => text::parse_decimal(write_number(n).as_str()),
            _ => None,
        }
    }

    /// An unsigned integer.
    pub fn number(n: u64) -> (r: Json)
        ensures
            r.model() == JsonModel::Number(text::decimal(n as nat)),
    {
        Json::Number(number_of(n))
    }

    /// A copy.
    pub fn copy(&self) -> (r: Json)
        ensures
            r.model() == self.model(),
        decreases self.model(),
    {
        match self {
            Json::Null => Json::Null,
            Json::Bool(b) => Json::Bool(*b),
            Json::Number(n) => Json::Number(n.clone()),
            Json::Text(s) => Json::Text(s.clone()),
            Json::Array(items) => {
                let mut out: Vec<Json> = Vec::new();
                let mut i: usize = 0;
                while i < items.len()
                    invariant
                        i <= items@.len(),
                        out@.len() == i,
                        *self == Json::Array(*items),
                        forall|k: int|
                            0 <= k < i ==> (#[trigger] out@[k]).model() == items@[k].model(),
                    decreases items@.len() - i,
                {
                    proof {
                        assert(self.model()->Array_0[i as int] == items@[i as int].model());
                    }
                    out.push(items[i].copy());
                    i += 1;
                }
                let r = Json::Array(out);
                proof {
                    assert(r.model()->Array_0 =~= self.model()->Array_0);
                }
                r
            },
            Json::Object(o) => {
                proof {
                    assert(self.model()->Object_0 == o@);
                }
                Json::Object(o.copy())
            },
        }
    }

    /// Whether two values are equal.
    pub fn same(&self, other: &Json) -> (r: bool)
        ensures
            r == json_same(self.model(), other.model()),
        decreases self.model(),
    {
        match (self, other) {
            (Json::Null, Json::Null) => true,
            (Json::Bool(a), Json::Bool(b)) => *a == *b,
            (Json::Number(a), Json::Number(b)) => numbers_equal(a, b),
            (Json::Text(a), Json::Text(b)) => text::same_text(a.as_str(), b.as_str()),
            (Json::Array(xs), Json::Array(ys)) => {
                if xs.len() != ys.len() {
                    return false;
                }
                let mut i: usize = 0;
                while i < xs.len()
                    invariant
                        i <= xs@.len() == ys@.len(),
                        *self == Json::Array(*xs),
                        *other == Json::Array(*ys),
                        forall|k: int|
                            0 <= k < i ==> json_same(
                                #[trigger] self.model()->Array_0[k],
                                other.model()->Array_0[k],
                            ),
                    decreases xs@.len() - i,
                {
                    proof {
                        assert(self.model()->Array_0[i as int] == xs@[i as int].model());
                        assert(other.model()->Array_0[i as int] == ys@[i as int].model());
                    }
                    if !xs[i].same(&ys[i]) {
                        return false;
                    }
                    i += 1;
                }
                true
            },
            (Json::Object(a), Json::Object(b)) => {
                proof {
                    assert(self.model() == JsonModel::Object(a@));
                    assert(other.model() == JsonModel::Object(b@));
                    assert(self.model()->Object_0 == a@);
                }
                a.same(b)
            },
            _ => false,
        }
    }

    /// Whether two values are the same node by node: numbers print alike, and members and items
    /// stand in the same order.
    pub fn identical(&self, other: &Json) -> (r: bool)
        ensures
            r == (self.model() == other.model()),
        decreases self.model(),
    {
        match (self, other) {
            (Json::Null, Json::Null) => true,
            (Json::Bool(a), Json::Bool(b)) => *a == *b,
            (Json::Number(a), Json::Number(b)) => text::same_text(
                write_number(a).as_str(),
                write_number(b).as_str(),
            ),
            (Json::Text(a), Json::Text(b)) => text::same_text(a.as_str(), b.as_str()),
            (Json::Array(xs), Json::Array(ys)) => {
                let ghost mine = self.model()->Array_0;
                let ghost theirs = other.model()->Array_0;
                if xs.len() != ys.len() {
                    proof {
                        assert(mine.len() != theirs.len());
                    }
                    return false;
                }
                let mut i: usize = 0;
                while i < xs.len()
                    invariant
                        i <= xs@.len() == ys@.len() == mine.len() == theirs.len(),
                        self.model() == JsonModel::Array(mine),
                        other.model() == JsonModel::Array(theirs),
                        forall|k: int| 0 <= k < mine.len() ==> mine[k] == (#[trigger] xs@[k]).model(),
                        forall|k: int|
                            0 <= k < theirs.len() ==> theirs[k] == (#[trigger] ys@[k]).model(),
                        forall|k: int| 0 <= k < i ==> #[trigger] mine[k] == theirs[k],
                    decreases xs@.len() - i,
                {
                    proof {
                        assert(self.model()->Array_0[i as int] == xs@[i as int].model());
                        assert(theirs[i as int] == ys@[i as int].model());
                    }
                    if !xs[i].identical(&ys[i]) {
                        proof {
                            assert(mine[i as int] != theirs[i as int]);
                        }
                        return false;
                    }
                    i += 1;
                }
                proof {
                    assert(mine =~= theirs);
                }
                true
            },
            (Json::Object(a), Json::Object(b)) => {
                proof {
                    assert(self.model() == JsonModel::Object(a@));
                    assert(other.model() == JsonModel::Object(b@));
                    assert(self.model()->Object_0 == a@);
                }
                a.identical(b)
            },
            _ => false,
        }
    }

    /// The text a value is compared by: strings raw, other leaves as they print, null empty, and
    /// containers as JSON text.
    pub fn compared_text(&self) -> (r: String)
        ensures
            r@ == leaf_text(self.model()),
            self.model() is Array || self.model() is Object ==> well_read(self.model()),
    {
        match self {
            Json::Text(s) => s.clone(),
            Json::Number(n) => write_number(n),
            Json::Bool(b) => if *b {
                "true".to_owned()
            } else {
                "false".to_owned()
            },
            Json::Null => String::new(),
            _ => self.to_text(),
        }
    }

    /// Converts what `serde_json` read.
    fn from_value(v: &serde_json::Value) -> (r: Json)
        ensures
            r.model() == json_model(*v),
        decreases json_model(*v),
    {
        match open_value(v) {
            JsonNode::Null => Json::Null,
            JsonNode::Bool(b) => Json::Bool(b),
            JsonNode::Number(n) => Json::Number(n.clone()),
            JsonNode::Text(s) => Json::Text(s.clone()),
            JsonNode::Array(items) => {
                let mut out: Vec<Json> = Vec::new();
                let mut i: usize = 0;
                while i < items.len()
                    invariant
                        i <= items@.len(),
                        out@.len() == i,
                        json_model(*v) == JsonModel::Array(
                            Seq::new(items@.len(), |k: int| json_model(items@[k])),
                        ),
                        forall|k: int|
                            0 <= k < i ==> (#[trigger] out@[k]).model() == json_model(items@[k]),
                    decreases items@.len() - i,
                {
                    proof {
                        assert(json_model(*v)->Array_0[i as int] == json_model(items@[i as int]));
                    }
                    out.push(Json::from_value(&items[i]));
                    i += 1;
                }
                let r = Json::Array(out);
                proof {
                    assert(r.model()->Array_0 =~= json_model(*v)->Array_0);
                }
                r
            },
            JsonNode::Object(entries) => {
                let mut out: Vec<(String, Json)> = Vec::new();
                let mut i: usize = 0;
                while i < entries.len()
                    invariant
                        i <= entries@.len(),
                        out@.len() == i,
                        json_model(*v) == JsonModel::Object(
                            Seq::new(
                                entries@.len(),
                                |k: int| (entries@[k].0@, json_model(*entries@[k].1)),
                            ),
                        ),
                        forall|k: int|
                            0 <= k < i ==> (#[trigger] out@[k]).0@ == entries@[k].0@
                                && out@[k].1.model() == json_model(*entries@[k].1),
                    decreases entries@.len() - i,
                {
                    proof {
                        assert(json_model(*v)->Object_0[i as int].1 == json_model(
                            *entries@[i as int].1,
                        ));
                    }
                    let entry = &entries[i];
                    out.push((entry.0.clone(), Json::from_value(entry.1)));
                    i += 1;
                }
                proof {
                    let all = json_model(*v)->Object_0;
                    assert forall|a: int, b: int| 0 <= a < b < out@.len() implies
                        #[trigger] out@[a].0@ != #[trigger] out@[b].0@ by {
                        assert(all[a].0 != all[b].0);
                    }
                }
                let obj = JsonObject { entries: out };
                proof {
                    assert(obj.view() =~= json_model(*v)->Object_0);
                }
                Json::Object(obj)
            },
        }
    }

    /// The `serde_json` value that stands for this one.
    fn to_value(&self) -> (r: serde_json::Value)
        ensures
            json_model(r) == self.model(),
            well_read(self.model()),
        decreases self.model(),
    {
        match self {
            Json::Null => close_value(JsonParts::Null),
            Json::Bool(b) => close_value(JsonParts::Bool(*b)),
            Json::Number(n) => close_value(JsonParts::Number(n.clone())),
            Json::Text(s) => close_value(JsonParts::Text(s.clone())),
            Json::Array(items) => {
                let mut out: Vec<serde_json::Value> = Vec::new();
                let mut i: usize = 0;
                while i < items.len()
                    invariant
                        i <= items@.len(),
                        out@.len() == i,
                        *self == Json::Array(*items),
                        forall|k: int|
                            0 <= k < i ==> json_model(#[trigger] out@[k]) == items@[k].model(),
                    decreases items@.len() - i,
                {
                    proof {
                        assert(self.model()->Array_0[i as int] == items@[i as int].model());
                    }
                    out.push(items[i].to_value());
                    i += 1;
                }
                let parts = JsonParts::Array(out);
                proof {
                    assert(parts_model(parts)->Array_0 =~= self.model()->Array_0);
                }
                close_value(parts)
            },
            Json::Object(obj) => {
                proof {
                    use_type_invariant(obj);
                }
                let mut out: Vec<(String, serde_json::Value)> = Vec::new();
                let mut i: usize = 0;
                while i < obj.entries.len()
                    invariant
                        i <= obj.entries@.len(),
                        out@.len() == i,
                        *self == Json::Object(*obj),
                        forall|k: int|
                            0 <= k < i ==> (#[trigger] out@[k]).0@ == obj.entries@[k].0@
                                && json_model(out@[k].1) == obj.entries@[k].1.model(),
                    decreases obj.entries@.len() - i,
                {
                    let entry = &obj.entries[i];
                    proof {
                        assert(self.model() == JsonModel::Object(obj.view()));
                        assert(self.model()->Object_0[i as int].1 == entry.1.model());
                    }
                    out.push((entry.0.clone(), entry.1.to_value()));
                    i += 1;
                }
                let parts = JsonParts::Object(out);
                proof {
                    assert(self.model() == JsonModel::Object(obj.view()));
                    assert(parts_model(parts)->Object_0.len() == obj.view().len());
                    assert(parts_model(parts)->Object_0 =~= self.model()->Object_0);
                }
                close_value(parts)
            },
        }
    }

    /// Reads a JSON text.
    pub fn parse(s: &str) -> (r: Option<Json>)
        ensures
            (match r {
                Some(j) => json_read(s@) == Some(j.model()) && well_read(j.model()),
                None => json_read(s@) is None,
            }),
    {
        match read_value(s) {
            Some(v) => Some(Json::from_value(&v)),
            None => None,
        }
    }

    /// The compact JSON text of this value.
    pub fn to_text(&self) -> (r: String)
        ensures
            r@ == json_text(self.model()),
            well_read(self.model()),
    {
        write_value(&self.to_value())
    }
}

/// Putting a value under a key is felt under that key alone: it is what is found there, and under
/// every other key the same is found as before.
pub proof fn law_a_put_value_is_found_under_its_key<T>(
    entries: Seq<(Seq<char>, T)>,
    key: Seq<char>,
    value: T,
    other: Seq<char>,
)
    ensures
        lookup::find_entry(with_entry(entries, key, value), key, true) == Some(value),
        other != key ==> lookup::find_entry(with_entry(entries, key, value), other, true)
            == lookup::find_entry(entries, other, true),
    decreases entries.len(),
{
    crate::text::lemma_exact_eq(key, key);
    crate::text::lemma_exact_eq(key, other);
    if entries.len() > 0 {
        let rest = entries.drop_first();
        crate::text::lemma_exact_eq(entries[0].0, key);
        crate::text::lemma_exact_eq(entries[0].0, other);
        if entries[0].0 == key {
            let put = entries.update(0, (key, value));
            assert(put.drop_first() =~= rest);
        } else {
            law_a_put_value_is_found_under_its_key(rest, key, value, other);
            let put = seq![entries[0]] + with_entry(rest, key, value);
            assert(put.drop_first() =~= with_entry(rest, key, value));
        }
    } else {
        let put = seq![(key, value)];
        assert(put.drop_first() =~= entries);
    }
}

/// A key stands once after a value was put under it, where it stood once at most before; and no
/// other key comes or goes.
pub proof fn law_a_put_key_stands_once(
    entries: Seq<(Seq<char>, JsonModel)>,
    key: Seq<char>,
    value: JsonModel,
)
    requires
        distinct_keys(entries),
    ensures
        distinct_keys(with_entry(entries, key, value)),
        with_entry(entries, key, value).contains((key, value)),
        forall|i: int|
            0 <= i < with_entry(entries, key, value).len() ==> (#[trigger] with_entry(
                entries,
                key,
                value,
            )[i]).0 == key || entries.contains(with_entry(entries, key, value)[i]),
        forall|i: int|
            0 <= i < entries.len() && (#[trigger] entries[i]).0 != key ==> with_entry(
                entries,
                key,
                value,
            ).contains(entries[i]),
{
    let put = with_entry(entries, key, value);
    if exists|at: int| 0 <= at < entries.len() && (#[trigger] entries[at]).0 == key {
        let at = choose|at: int| 0 <= at < entries.len() && (#[trigger] entries[at]).0 == key;
        lemma_with_entry_at(entries, key, value, at);
        assert(put[at] == (key, value));
        assert forall|i: int| 0 <= i < entries.len() && (#[trigger] entries[i]).0
            != key implies put.contains(entries[i]) by {
            assert(put[i] == entries[i]);
        }
        assert forall|i: int| 0 <= i < put.len() implies (#[trigger] put[i]).0 == key
            || entries.contains(put[i]) by {
            assert(i == at || put[i] == entries[i]);
        }
    } else {
        lemma_with_entry_new(entries, key, value);
        assert(put[entries.len() as int] == (key, value));
        assert forall|i: int| 0 <= i < entries.len() && (#[trigger] entries[i]).0
            != key implies put.contains(entries[i]) by {
            assert(put[i] == entries[i]);
        }
        assert forall|i: int| 0 <= i < put.len() implies (#[trigger] put[i]).0 == key
            || entries.contains(put[i]) by {
            assert(i == entries.len() || put[i] == entries[i]);
        }
    }
}

proof fn lemma_same_is_reflexive(m: JsonModel)
    requires
        well_read(m),
    ensures
        json_same(m, m),
    decreases m,
{
    match m {
        JsonModel::Array(items) => {
            assert forall|i: int| 0 <= i < items.len() implies json_same(
                #[trigger] items[i],
                items[i],
            ) by {
                lemma_same_is_reflexive(items[i]);
            }
        },
        JsonModel::Object(entries) => {
            assert forall|i: int| 0 <= i < entries.len() implies match lookup::find_entry(
                entries,
                (#[trigger] entries[i]).0,
                true,
            ) {
                Some(v) => json_same(entries[i].1, v),
                None => false,
            } by {
                let key = entries[i].0;
                crate::text::lemma_exact_eq(key, key);
                assert forall|j: int| 0 <= j < i implies !crate::text::text_eq(
                    (#[trigger] entries[j]).0,
                    key,
                    true,
                ) by {
                    crate::text::lemma_exact_eq(entries[j].0, key);
                }
                lookup::lemma_find_at(entries, key, true, i);
                lemma_same_is_reflexive(entries[i].1);
            }
        },
        _ => {},
    }
}

/// Every value is the same as itself. Scalars are the same only where they are of one kind with
/// one content; arrays only item by item; objects only where every member of one is under the same
/// key in the other.
pub proof fn law_sameness_is_of_content(a: JsonModel, b: JsonModel)
    requires
        well_read(a),
    ensures
        json_same(a, a),
        json_same(a, b) ==> {
            &&& a is Null <==> b is Null
            &&& a is Bool <==> b is Bool
            &&& a is Number <==> b is Number
            &&& a is Text <==> b is Text
            &&& a is Array <==> b is Array
            &&& a is Object <==> b is Object
            &&& a is Bool || a is Text ==> a == b
            &&& a is Number && a->Number_0 != "0.0"@ && a->Number_0 != "-0.0"@ ==> a == b
            &&& a is Array ==> a->Array_0.len() == b->Array_0.len() && forall|i: int|
                0 <= i < a->Array_0.len() ==> json_same(#[trigger] a->Array_0[i], b->Array_0[i])
            &&& a is Object ==> a->Object_0.len() == b->Object_0.len() && forall|i: int|
                0 <= i < a->Object_0.len() ==> exists|j: int|
                    0 <= j < b->Object_0.len() && (#[trigger] b->Object_0[j]).0 == (
                    #[trigger] a->Object_0[i]).0 && json_same(a->Object_0[i].1, b->Object_0[j].1)
        },
{
    lemma_same_is_reflexive(a);
    if json_same(a, b) && a is Object {
        let xs = a->Object_0;
        let ys = b->Object_0;
        assert forall|i: int| 0 <= i < xs.len() implies exists|j: int|
            0 <= j < ys.len() && (#[trigger] ys[j]).0 == (#[trigger] xs[i]).0 && json_same(
                xs[i].1,
                ys[j].1,
            ) by {
            assert(lookup::find_entry(ys, xs[i].0, true) is Some);
            let j = lookup::lemma_found_is_member(ys, xs[i].0, true);
            crate::text::lemma_exact_eq(ys[j].0, xs[i].0);
        }
    }
}

/// A scalar is compared by its bare text: a string without quotes, a number as written, a boolean
/// as its name, and nothing for null.
pub proof fn law_scalars_are_compared_bare(s: Seq<char>)
    ensures
        leaf_text(JsonModel::Text(s)) == s,
        leaf_text(JsonModel::Number(s)) == s,
        leaf_text(JsonModel::Bool(true)) == "true"@,
        leaf_text(JsonModel::Bool(false)) == "false"@,
        leaf_text(JsonModel::Null).len() == 0,
        json_read(Seq::empty()) is None,
        s.len() > 0 ==> json_read(s) == json_parse(s),
{
}

} // verus!
