//! A hash of JSON values that agrees with default-mode `deepEquals`.
//!
//! The body index stores this hash for each stub that expects a JSON body and probes it with the
//! request body's. Its one duty is soundness: two values that compare deep-equal hash alike, or one
//! of them has no hash. A value has none where the comparison sees more than its structure: where it
//! holds a string that could itself be JSON, an object with two keys that differ by case alone, or
//! an inner object or array whose text reads back as another value.

use crate::compare;
use crate::compare::{Relation, Rule};
use crate::json;
use crate::json::{Json, JsonModel, JsonObject};
use crate::lookup;
use crate::text;
use vstd::prelude::*;
use vstd::utf8::*;

verus! {

/// The tag of an object's hash. Leaves carry none, so `1` and `"1"` hash alike.
pub const OBJ_TAG: u64 = 0x9e37_79b9_7f4a_7c15;

/// The tag of an array's hash.
pub const ARR_TAG: u64 = 0xc2b2_ae3d_27d4_eb4f;

/// A finalizing bit mixer.
pub open spec fn mixed(x: u64) -> u64 {
    let a = x ^ (x >> 33);
    let b = a.wrapping_mul(0xff51_afd7_ed55_8ccd);
    let c = b ^ (b >> 33);
    let d = c.wrapping_mul(0xc4ce_b9fe_1a85_ec53);
    d ^ (d >> 33)
}

/// An order-sensitive combination of two hashes.
pub open spec fn combined(a: u64, b: u64) -> u64 {
    mixed(a ^ ((mixed(b) << 31) | (mixed(b) >> 33)))
}

/// The hash `foldhash`'s fixed-seed hasher gives a text.
pub uninterp spec fn text_hash(s: Seq<char>) -> u64;

/// The lower-case form of a text: its bytes under the ASCII fold.
pub open spec fn lowered(s: Seq<char>) -> Seq<char> {
    decode_utf8(text::fold(encode_utf8(s)))
}

/// The hash of a text under the ASCII fold.
pub open spec fn folded_hash(s: Seq<char>) -> u64 {
    text_hash(lowered(s))
}

/// The hashes of an object's members, summed.
pub open spec fn member_sum(entries: Seq<(Seq<char>, JsonModel)>) -> Option<u64>
    decreases entries,
{
    if entries.len() == 0 {
        Some(0)
    } else {
        match (member_sum(entries.drop_last()), hash_of(entries.last().1)) {
            (Some(sum), Some(h)) => Some(
                sum.wrapping_add(mixed(combined(folded_hash(entries.last().0), h))),
            ),
            _ => None,
        }
    }
}

/// The hashes of an array's items, combined in order.
pub open spec fn item_chain(items: Seq<JsonModel>) -> Option<u64>
    decreases items,
{
    if items.len() == 0 {
        Some(ARR_TAG)
    } else {
        match (item_chain(items.drop_last()), hash_of(items.last())) {
            (Some(chain), Some(h)) => Some(combined(chain, h)),
            _ => None,
        }
    }
}

/// No two keys are equal up to ASCII case.
pub open spec fn keys_fold_apart(entries: Seq<(Seq<char>, JsonModel)>) -> bool {
    forall|i: int, j: int|
        0 <= i < j < entries.len() ==> !text::text_eq(
            (#[trigger] entries[i]).0,
            (#[trigger] entries[j]).0,
            false,
        )
}

/// A container's text reads back to it.
pub open spec fn reads_back(m: JsonModel) -> bool {
    (m is Array || m is Object) ==> json::json_read(json::json_text(m)) == Some(m)
}

/// Every member that is a container has a text that reads back to it.
pub open spec fn members_read_back(entries: Seq<(Seq<char>, JsonModel)>) -> bool {
    forall|i: int| 0 <= i < entries.len() ==> reads_back((#[trigger] entries[i]).1)
}

/// Every item that is a container has a text that reads back to it.
pub open spec fn items_read_back(items: Seq<JsonModel>) -> bool {
    forall|i: int| 0 <= i < items.len() ==> reads_back(#[trigger] items[i])
}

/// The structural hash of a value. There is none where a leaf's text could itself be JSON, where
/// two keys of one object fold together, or where an inner container does not read back.
pub open spec fn hash_of(m: JsonModel) -> Option<u64>
    decreases m,
{
    match m {
        JsonModel::Object(entries) => if keys_fold_apart(entries) && members_read_back(entries) {
            match member_sum(entries) {
                Some(sum) => Some(combined(OBJ_TAG, combined(entries.len() as u64, sum))),
                None => None,
            }
        } else {
            None
        },
        JsonModel::Array(items) => if items_read_back(items) {
            match item_chain(items) {
                Some(chain) => Some(combined(chain, items.len() as u64)),
                None => None,
            }
        } else {
            None
        },
        _ => if json::jsonish(json::leaf_text(m)) {
            None
        } else {
            Some(folded_hash(json::leaf_text(m)))
        },
    }
}

/// Hashes a text with `foldhash::fast::FixedState`'s default seed: a function of the text alone,
/// the same for every call of one build.
#[verifier::external_body]
pub(crate) fn hash_text(s: &str) -> (h: u64)
    ensures
        h == text_hash(s@),
{
    std::hash::BuildHasher::hash_one(&foldhash::fast::FixedState::default(), s)
}

fn mix64(x: u64) -> (r: u64)
    ensures
        r == mixed(x),
{
    let a: u64 = x ^ (x >> 33);
    let b: u64 = a.wrapping_mul(0xff51_afd7_ed55_8ccd);
    let c: u64 = b ^ (b >> 33);
    let d: u64 = c.wrapping_mul(0xc4ce_b9fe_1a85_ec53);
    d ^ (d >> 33)
}

fn combine(a: u64, b: u64) -> (r: u64)
    ensures
        r == combined(a, b),
{
    let m: u64 = mix64(b);
    mix64(a ^ ((m << 31) | (m >> 33)))
}

/// The lower-case form of a text.
pub(crate) fn lower(s: &str) -> (r: String)
    ensures
        r@ == lowered(s@),
{
    let low: String = s.to_ascii_lowercase();
    proof {
        encode_utf8_decode_utf8(low@);
    }
    low
}

fn hash_folded(s: &str) -> (h: u64)
    ensures
        h == folded_hash(s@),
{
    let low: String = lower(s);
    hash_text(low.as_str())
}

fn is_white_space(c: char) -> (r: bool)
    ensures
        r == json::is_space(c),
{
    let n: u32 = c as u32;
    (9 <= n && n <= 13) || n == 0x20 || n == 0x85 || n == 0xa0 || n == 0x1680 || (0x2000 <= n && n
        <= 0x200a) || n == 0x2028 || n == 0x2029 || n == 0x202f || n == 0x205f || n == 0x3000
}

/// Whether a string could itself be JSON: after leading white space it opens with `{` or `[`.
pub fn is_jsonish_string(s: &str) -> (r: bool)
    ensures
        r == json::jsonish(s@),
{
    let v: Vec<char> = text::chars_of(s);
    let mut k: usize = 0;
    while k < v.len()
        invariant
            v@ == s@,
            k <= v@.len(),
            forall|j: int| 0 <= j < k ==> json::is_space(#[trigger] s@[j]),
        decreases v@.len() - k,
    {
        let c: char = v[k];
        if c == '{' || c == '[' {
            return true;
        }
        if !is_white_space(c) {
            proof {
                if json::jsonish(s@) {
                    let at = choose|at: int|
                        0 <= at < s@.len() && (s@[at] == '{' || s@[at] == '[') && forall|j: int|
                            0 <= j < at ==> json::is_space(#[trigger] s@[j]);
                    assert(at >= k) by {
                        if at < k {
                            assert(json::is_space(s@[at]));
                        }
                    }
                    if at > k {
                        assert(json::is_space(s@[k as int]));
                    }
                }
            }
            return false;
        }
        k += 1;
    }
    proof {
        if json::jsonish(s@) {
            let at = choose|at: int|
                0 <= at < s@.len() && (s@[at] == '{' || s@[at] == '[') && forall|j: int|
                    0 <= j < at ==> json::is_space(#[trigger] s@[j]);
            assert(json::is_space(s@[at]));
        }
    }
    false
}

/// Whether no two keys of an object are equal up to ASCII case.
fn keys_apart(obj: &JsonObject) -> (r: bool)
    ensures
        r == keys_fold_apart(obj@),
{
    let n: usize = obj.len();
    let mut j: usize = 0;
    while j < n
        invariant
            n == obj@.len(),
            j <= n,
            keys_fold_apart(obj@.take(j as int)),
        decreases n - j,
    {
        let mut i: usize = 0;
        while i < j
            invariant
                n == obj@.len(),
                j < n,
                i <= j,
                forall|k: int|
                    0 <= k < i ==> !text::text_eq(
                        (#[trigger] obj@[k]).0,
                        obj@[j as int].0,
                        false,
                    ),
            decreases j - i,
        {
            if text::texts_equal(obj.key_at(i).as_str(), obj.key_at(j).as_str(), false) {
                proof {
                    assert(text::text_eq(obj@[i as int].0, obj@[j as int].0, false));
                }
                return false;
            }
            i += 1;
        }
        proof {
            let shorter = obj@.take(j as int);
            let longer = obj@.take(j + 1);
            assert forall|a: int, b: int| 0 <= a < b < longer.len() implies !text::text_eq(
                (#[trigger] longer[a]).0,
                (#[trigger] longer[b]).0,
                false,
            ) by {
                assert(longer[a] == obj@[a]);
                if b < j {
                    assert(longer[a] == shorter[a] && longer[b] == shorter[b]);
                }
            }
        }
        j += 1;
    }
    proof {
        assert(obj@.take(n as int) =~= obj@);
    }
    true
}

/// Whether a value, where it is a container, is read back from its text as it is.
fn text_reads_back(value: &Json) -> (r: bool)
    ensures
        r == reads_back(value.model()),
{
    if value.as_object().is_none() && value.as_array().is_none() {
        return true;
    }
    let written: String = value.to_text();
    match Json::parse(written.as_str()) {
        Some(read) => read.identical(value),
        None => false,
    }
}

/// A structural hash under default-mode `deepEquals`.
///
/// Leaves hash the folded text they are compared by. Objects sum their members' hashes, so key
/// order is irrelevant; arrays chain theirs in order. `None` where the comparison may see a value
/// that this structure does not show: a string that could itself be JSON, a key that is found under
/// another of the same letters, an inner container that is read back as another value.
pub fn structural_hash(value: &Json) -> (r: Option<u64>)
    ensures
        r == hash_of(value.model()),
    decreases value.model(),
{
    if let Some(obj) = value.as_object() {
        let ghost entries = obj@;
        if !keys_apart(obj) {
            return None;
        }
        let n: usize = obj.len();
        let mut acc: u64 = 0;
        let mut i: usize = 0;
        while i < n
            invariant
                n == obj@.len(),
                i <= n,
                obj@ == entries,
                value.model() == JsonModel::Object(entries),
                member_sum(entries.take(i as int)) == Some(acc),
                forall|k: int| 0 <= k < i ==> reads_back((#[trigger] entries[k]).1),
            decreases n - i,
        {
            proof {
                assert(entries.take(i + 1).drop_last() =~= entries.take(i as int));
                assert(value.model()->Object_0[i as int].1 == entries[i as int].1);
            }
            if !text_reads_back(obj.value_at(i)) {
                proof {
                    assert(!reads_back(entries[i as int].1));
                }
                return None;
            }
            match structural_hash(obj.value_at(i)) {
                Some(h) => {
                    let entry: u64 = combine(hash_folded(obj.key_at(i).as_str()), h);
                    acc = acc.wrapping_add(mix64(entry));
                },
                None => {
                    proof {
                        assert(member_sum(entries.take(i + 1)) is None);
                        lemma_member_none(entries, i + 1);
                    }
                    return None;
                },
            }
            i += 1;
        }
        proof {
            assert(entries.take(n as int) =~= entries);
        }
        return Some(combine(OBJ_TAG, combine(n as u64, acc)));
    }
    if let Some(items) = value.as_array() {
        let ghost all = value.model()->Array_0;
        let n: usize = items.len();
        let mut h: u64 = ARR_TAG;
        let mut i: usize = 0;
        while i < n
            invariant
                n == items@.len() == all.len(),
                i <= n,
                value.model() == JsonModel::Array(all),
                forall|k: int| 0 <= k < n ==> (#[trigger] items@[k]).model() == all[k],
                item_chain(all.take(i as int)) == Some(h),
                forall|k: int| 0 <= k < i ==> reads_back(#[trigger] all[k]),
            decreases n - i,
        {
            proof {
                assert(all.take(i + 1).drop_last() =~= all.take(i as int));
                assert(items@[i as int].model() == all[i as int]);
                assert(value.model()->Array_0[i as int] == all[i as int]);
            }
            if !text_reads_back(&items[i]) {
                proof {
                    assert(!reads_back(all[i as int]));
                }
                return None;
            }
            match structural_hash(&items[i]) {
                Some(sub) => {
                    h = combine(h, sub);
                },
                None => {
                    proof {
                        assert(item_chain(all.take(i + 1)) is None);
                        lemma_item_none(all, i + 1);
                    }
                    return None;
                },
            }
            i += 1;
        }
        proof {
            assert(all.take(n as int) =~= all);
        }
        return Some(combine(h, n as u64));
    }
    let leaf: String = value.compared_text();
    if is_jsonish_string(leaf.as_str()) {
        return None;
    }
    Some(hash_folded(leaf.as_str()))
}

/// Without a hash for a prefix of the members there is none for all of them.
proof fn lemma_member_none(entries: Seq<(Seq<char>, JsonModel)>, at: int)
    requires
        0 <= at <= entries.len(),
        member_sum(entries.take(at)) is None,
    ensures
        member_sum(entries) is None,
    decreases entries.len() - at,
{
    if at == entries.len() {
        assert(entries.take(at) =~= entries);
    } else {
        assert(entries.take(at + 1).drop_last() =~= entries.take(at));
        lemma_member_none(entries, at + 1);
    }
}

/// Without a hash for a prefix of the items there is none for all of them.
proof fn lemma_item_none(items: Seq<JsonModel>, at: int)
    requires
        0 <= at <= items.len(),
        item_chain(items.take(at)) is None,
    ensures
        item_chain(items) is None,
    decreases items.len() - at,
{
    if at == items.len() {
        assert(items.take(at) =~= items);
    } else {
        assert(items.take(at + 1).drop_last() =~= items.take(at));
        lemma_item_none(items, at + 1);
    }
}

/// The rule of a default-mode `deepEquals`: nothing erased, case ignored in values and keys.
pub open spec fn deep_equals_rule() -> Rule {
    Rule {
        relation: Relation::Equals,
        case_sensitive: false,
        key_case_sensitive: false,
        deep: true,
        except: None,
    }
}

/// No leaf's text could itself be JSON, and no two keys of one object fold together.
pub open spec fn unambiguous(m: JsonModel) -> bool
    decreases m,
{
    match m {
        JsonModel::Array(items) => forall|i: int|
            0 <= i < items.len() ==> unambiguous(#[trigger] items[i]),
        JsonModel::Object(entries) => keys_fold_apart(entries) && forall|i: int|
            0 <= i < entries.len() ==> unambiguous((#[trigger] entries[i]).1),
        _ => !json::jsonish(json::leaf_text(m)),
    }
}

proof fn lemma_plain_within_monotone(m: JsonModel, less: nat, more: nat)
    requires
        less <= more,
        json::plain_within(m, less),
    ensures
        json::plain_within(m, more),
    decreases m,
{
    match m {
        JsonModel::Array(items) => {
            assert forall|i: int| 0 <= i < items.len() implies json::plain_within(
                #[trigger] items[i],
                (more - 1) as nat,
            ) by {
                lemma_plain_within_monotone(items[i], (less - 1) as nat, (more - 1) as nat);
            }
        },
        JsonModel::Object(entries) => {
            assert forall|i: int| 0 <= i < entries.len() implies json::plain_within(
                (#[trigger] entries[i]).1,
                (more - 1) as nat,
            ) by {
                lemma_plain_within_monotone(entries[i].1, (less - 1) as nat, (more - 1) as nat);
            }
        },
        _ => {},
    }
}

/// The wrapping sum of a list.
spec fn wsum(s: Seq<u64>) -> u64
    decreases s.len(),
{
    if s.len() == 0 {
        0
    } else {
        wsum(s.drop_last()).wrapping_add(s.last())
    }
}

proof fn lemma_wsum_remove(s: Seq<u64>, at: int)
    requires
        0 <= at < s.len(),
    ensures
        wsum(s) == wsum(s.remove(at)).wrapping_add(s[at]),
    decreases s.len(),
{
    if at == s.len() - 1 {
        assert(s.remove(at) =~= s.drop_last());
    } else {
        lemma_wsum_remove(s.drop_last(), at);
        assert(s.remove(at).drop_last() =~= s.drop_last().remove(at));
        assert(s.remove(at).last() == s.last());
    }
}

/// Lists that hold the same numbers in another order have the same sum.
proof fn lemma_wsum_reordered(a: Seq<u64>, b: Seq<u64>, p: spec_fn(int) -> int)
    requires
        a.len() == b.len(),
        forall|i: int| 0 <= i < a.len() ==> 0 <= #[trigger] p(i) < b.len() && a[i] == b[p(i)],
        forall|i: int, j: int| 0 <= i < j < a.len() ==> #[trigger] p(i) != #[trigger] p(j),
    ensures
        wsum(a) == wsum(b),
    decreases a.len(),
{
    if a.len() > 0 {
        let last = a.len() - 1;
        let at = p(last);
        let q = |i: int| if p(i) > at {
            p(i) - 1
        } else {
            p(i)
        };
        let rest = a.drop_last();
        let other = b.remove(at);
        assert forall|i: int| 0 <= i < rest.len() implies 0 <= #[trigger] q(i) < other.len()
            && rest[i] == other[q(i)] by {
            assert(p(i) != p(last));
            assert(a[i] == b[p(i)]);
        }
        assert forall|i: int, j: int| 0 <= i < j < rest.len() implies #[trigger] q(i)
            != #[trigger] q(j) by {
            assert(p(i) != p(j));
            assert(p(i) != p(last));
            assert(p(j) != p(last));
        }
        lemma_wsum_reordered(rest, other, q);
        lemma_wsum_remove(b, at);
    }
}

/// The hash of one member.
spec fn member_term(entry: (Seq<char>, JsonModel)) -> u64 {
    mixed(combined(folded_hash(entry.0), hash_of(entry.1)->0))
}

/// Where every member has a hash, their sum is the sum of the member hashes.
proof fn lemma_member_sum(entries: Seq<(Seq<char>, JsonModel)>)
    ensures
        member_sum(entries) is Some <==> forall|i: int|
            0 <= i < entries.len() ==> hash_of((#[trigger] entries[i]).1) is Some,
        member_sum(entries) is Some ==> member_sum(entries) == Some(
            wsum(Seq::new(entries.len(), |i: int| member_term(entries[i]))),
        ),
    decreases entries.len(),
{
    if entries.len() > 0 {
        let front = entries.drop_last();
        lemma_member_sum(front);
        let terms = Seq::new(entries.len(), |i: int| member_term(entries[i]));
        assert(terms.drop_last() =~= Seq::new(front.len(), |i: int| member_term(front[i])));
        if member_sum(entries) is Some {
            assert forall|i: int| 0 <= i < entries.len() implies hash_of((#[trigger] entries[i]).1)
                is Some by {
                if i < front.len() {
                    assert(front[i] == entries[i]);
                }
            }
        }
        if forall|i: int| 0 <= i < entries.len() ==> hash_of((#[trigger] entries[i]).1) is Some {
            assert forall|i: int| 0 <= i < front.len() implies hash_of((#[trigger] front[i]).1)
                is Some by {
                assert(front[i] == entries[i]);
            }
            assert(hash_of(entries[entries.len() - 1].1) is Some);
        }
    }
}

/// Where arrays have items of equal hashes, their chains are equal.
proof fn lemma_item_chain(a: Seq<JsonModel>, b: Seq<JsonModel>)
    requires
        a.len() == b.len(),
        forall|i: int|
            0 <= i < a.len() ==> hash_of(#[trigger] a[i]) is None || hash_of(b[i]) is None
                || hash_of(a[i]) == hash_of(b[i]),
    ensures
        item_chain(a) is None || item_chain(b) is None || item_chain(a) == item_chain(b),
    decreases a.len(),
{
    if a.len() > 0 {
        let fa = a.drop_last();
        let fb = b.drop_last();
        assert forall|i: int| 0 <= i < fa.len() implies hash_of(#[trigger] fa[i]) is None
            || hash_of(fb[i]) is None || hash_of(fa[i]) == hash_of(fb[i]) by {
            assert(fa[i] == a[i]);
        }
        lemma_item_chain(fa, fb);
        assert(hash_of(a[a.len() - 1]) is None || hash_of(b[b.len() - 1]) is None || hash_of(
            a[a.len() - 1],
        ) == hash_of(b[b.len() - 1]));
    }
}

/// Where every item has a hash, so have the items together.
proof fn lemma_item_some(items: Seq<JsonModel>)
    requires
        forall|i: int| 0 <= i < items.len() ==> hash_of(#[trigger] items[i]) is Some,
    ensures
        item_chain(items) is Some,
    decreases items.len(),
{
    if items.len() > 0 {
        let front = items.drop_last();
        assert forall|i: int| 0 <= i < front.len() implies hash_of(#[trigger] front[i]) is Some by {
            assert(front[i] == items[i]);
        }
        lemma_item_some(front);
        assert(hash_of(items[items.len() - 1]) is Some);
    }
}

/// A plain value that was read has a hash, where it is unambiguous: a body without fractions,
/// exponents, very long integers or extreme nesting is looked up by its structure.
pub proof fn law_plain_values_have_a_hash(m: JsonModel, depth: nat)
    requires
        json::well_read(m),
        json::plain_within(m, depth),
        depth <= 100,
        unambiguous(m),
    ensures
        hash_of(m) is Some,
        reads_back(m),
    decreases m,
{
    lemma_plain_within_monotone(m, depth, 100);
    match m {
        JsonModel::Array(items) => {
            assert forall|i: int| 0 <= i < items.len() implies reads_back(#[trigger] items[i])
                && hash_of(items[i]) is Some by {
                law_plain_values_have_a_hash(items[i], (depth - 1) as nat);
            }
            lemma_item_some(items);
        },
        JsonModel::Object(entries) => {
            assert forall|i: int| 0 <= i < entries.len() implies reads_back(
                (#[trigger] entries[i]).1,
            ) && hash_of(entries[i].1) is Some by {
                law_plain_values_have_a_hash(entries[i].1, (depth - 1) as nat);
            }
            lemma_member_sum(entries);
        },
        _ => {},
    }
}

proof fn lemma_char_fits(c: char)
    ensures
        (c as u32) as int == c as int,
{
}

/// A text opens with an ASCII character exactly where its bytes do.
proof fn lemma_first_byte(s: Seq<char>)
    ensures
        s.len() == 0 <==> encode_utf8(s).len() == 0,
        s.len() > 0 && (s[0] as u32) < 128 ==> encode_utf8(s)[0] as int == s[0] as int,
        s.len() > 0 && encode_utf8(s)[0] < 128 ==> (s[0] as u32) < 128,
{
    if s.len() > 0 {
        encode_utf8_first_scalar(s);
        let c = s[0];
        lemma_char_fits(c);
        let n = c as u32;
        let first = encode_scalar(n);
        assert(encode_utf8(s) =~= first + encode_utf8(s.drop_first()));
        assert(first.len() > 0);
        assert(encode_utf8(s)[0] == first[0]);
        if n < 128 {
            assert(((n & 0x7f) as u8) as u32 == n) by (bit_vector)
                requires
                    n < 128,
            ;
        } else if n < 0x800 {
            assert((0xC0u8 | ((n >> 6) & 0x1F) as u8) >= 128) by (bit_vector);
        } else if n < 0x10000 {
            assert((0xE0u8 | ((n >> 12) & 0x0F) as u8) >= 128) by (bit_vector);
        } else {
            assert((0xF0u8 | ((n >> 18) & 0x07) as u8) >= 128) by (bit_vector);
        }
    }
}

/// A text that folds like one opening with a bracket opens with that bracket.
proof fn lemma_opens_alike(s: Seq<char>, t: Seq<char>)
    requires
        text::text_eq(s, t, false),
        t.len() > 0,
        t[0] == '{' || t[0] == '[',
    ensures
        s.len() > 0,
        s[0] == t[0],
{
    lemma_first_byte(s);
    lemma_first_byte(t);
    let x = text::fold(encode_utf8(s));
    let y = text::fold(encode_utf8(t));
    assert(x.len() == y.len());
    assert(x[0] == y[0]);
}

/// How a value shows itself to the comparison: a container by a text that reads back to it, a leaf
/// by its own text.
spec fn shown_as(v: JsonModel, t: Seq<char>) -> bool {
    if v is Array || v is Object {
        json::json_read(t) == Some(v)
    } else {
        t == json::leaf_text(v)
    }
}

proof fn lemma_leaf_hash(e: JsonModel)
    requires
        !(e is Array),
        !(e is Object),
    ensures
        hash_of(e) is None || hash_of(e) == Some(folded_hash(json::leaf_text(e))),
{
}

proof fn lemma_text_eq_hash(a: Seq<char>, b: Seq<char>)
    requires
        text::text_eq(a, b, false),
    ensures
        folded_hash(a) == folded_hash(b),
{
}

/// A leaf that compares equal to a container's text is a string that could itself be JSON.
proof fn lemma_leaf_against_container(e: JsonModel, t: Seq<char>)
    requires
        !(e is Array),
        !(e is Object),
        text::text_eq(json::leaf_text(e), t, false),
        t.len() > 0,
        t[0] == '{' || t[0] == '[',
    ensures
        hash_of(e) is None,
{
    lemma_opens_alike(json::leaf_text(e), t);
    assert(json::jsonish(json::leaf_text(e)));
}

proof fn lemma_leaf_not_container(v: JsonModel)
    requires
        !(v is Array),
        !(v is Object),
        json::well_read(v),
        json::is_container(json::json_read(json::leaf_text(v))),
    ensures
        hash_of(v) is None,
{
}

/// Values that compare deep-equal hash alike, or one of them has no hash.
proof fn lemma_sound(e: JsonModel, v: JsonModel, t: Seq<char>)
    requires
        json::well_read(v),
        shown_as(v, t),
        (v is Array || v is Object) && !(e is Array || e is Object) ==> t.len() > 0 && (t[0] == '{'
            || t[0] == '['),
        compare::json_holds(deep_equals_rule(), e, t),
    ensures
        hash_of(e) is None || hash_of(v) is None || hash_of(e) == hash_of(v),
    decreases e, 1int,
{
    match e {
        JsonModel::Object(want) => {
            if !(v is Array || v is Object) {
                lemma_leaf_not_container(v);
            } else {
                let have = v->Object_0;
                assert(v == JsonModel::Object(have));
                lemma_sound_members(e, v, want, have);
            }
        },
        JsonModel::Array(want) => {
            if !(v is Array || v is Object) {
                lemma_leaf_not_container(v);
            } else {
                let have = v->Array_0;
                assert(v == JsonModel::Array(have));
                lemma_sound_items(e, v, want, have);
            }
        },
        _ => {
            assert(text::text_eq(json::leaf_text(e), t, false));
            if v is Array || v is Object {
                lemma_leaf_against_container(e, t);
            } else {
                lemma_leaf_hash(e);
                lemma_leaf_hash(v);
                lemma_text_eq_hash(json::leaf_text(e), json::leaf_text(v));
            }
        },
    }
}

proof fn lemma_sound_items(
    e: JsonModel,
    v: JsonModel,
    want: Seq<JsonModel>,
    have: Seq<JsonModel>,
)
    requires
        e == JsonModel::Array(want),
        v == JsonModel::Array(have),
        json::well_read(v),
        want.len() == have.len(),
        forall|i: int|
            0 <= i < want.len() ==> compare::json_holds(
                deep_equals_rule(),
                #[trigger] want[i],
                json::leaf_text(have[i]),
            ),
    ensures
        hash_of(e) is None || hash_of(v) is None || hash_of(e) == hash_of(v),
    decreases e, 0int,
{
    if hash_of(v) is Some {
        assert forall|i: int| 0 <= i < want.len() implies hash_of(#[trigger] want[i]) is None
            || hash_of(have[i]) is None || hash_of(want[i]) == hash_of(have[i]) by {
            assert(e->Array_0[i] == want[i]);
            assert(json::well_read(have[i]) && reads_back(have[i]));
            assert(compare::json_holds(deep_equals_rule(), want[i], json::leaf_text(have[i])));
            lemma_sound(want[i], have[i], json::leaf_text(have[i]));
        }
        lemma_item_chain(want, have);
    }
}

/// Where member `i` of the expected object is found in the actual one.
spec fn partner(
    want: Seq<(Seq<char>, JsonModel)>,
    have: Seq<(Seq<char>, JsonModel)>,
    i: int,
) -> int {
    choose|at: int|
        0 <= at < have.len() && text::text_eq(have[at].0, want[i].0, false) && lookup::find_entry(
            have,
            want[i].0,
            false,
        ) == Some(have[at].1)
}

proof fn lemma_sound_members(
    e: JsonModel,
    v: JsonModel,
    want: Seq<(Seq<char>, JsonModel)>,
    have: Seq<(Seq<char>, JsonModel)>,
)
    requires
        e == JsonModel::Object(want),
        v == JsonModel::Object(have),
        json::well_read(v),
        want.len() == have.len(),
        forall|i: int|
            0 <= i < want.len() ==> match lookup::find_entry(
                have,
                (#[trigger] want[i]).0,
                false,
            ) {
                Some(x) => compare::json_holds(
                    deep_equals_rule(),
                    want[i].1,
                    json::leaf_text(x),
                ),
                None => false,
            },
    ensures
        hash_of(e) is None || hash_of(v) is None || hash_of(e) == hash_of(v),
    decreases e, 0int,
{
    if hash_of(e) is Some && hash_of(v) is Some {
        let p = |i: int| partner(want, have, i);
        assert forall|i: int| 0 <= i < want.len() implies 0 <= #[trigger] p(i) < have.len()
            && text::text_eq(have[p(i)].0, want[i].0, false) && (hash_of(want[i].1) is None || hash_of(
            have[p(i)].1,
        ) is None || hash_of(want[i].1) == hash_of(have[p(i)].1)) by {
            assert(want[i] == want[i]);
            let found = lookup::lemma_found_is_member(have, want[i].0, false);
            let at = p(i);
            assert(0 <= at < have.len() && text::text_eq(have[at].0, want[i].0, false)
                && lookup::find_entry(have, want[i].0, false) == Some(have[at].1));
            let x = have[at].1;
            assert(json::well_read(x) && reads_back(x)) by {
                assert(v->Object_0[at] == have[at]);
            }
            assert(e->Object_0[i].1 == want[i].1);
            lemma_sound(want[i].1, x, json::leaf_text(x));
        }
        assert forall|i: int, j: int| 0 <= i < j < want.len() implies #[trigger] p(i)
            != #[trigger] p(j) by {
            if p(i) == p(j) {
                assert(text::text_eq(want[i].0, want[j].0, false));
            }
        }
        lemma_member_sum(want);
        lemma_member_sum(have);
        if member_sum(want) is Some && member_sum(have) is Some {
            let a = Seq::new(want.len(), |i: int| member_term(want[i]));
            let b = Seq::new(have.len(), |i: int| member_term(have[i]));
            assert forall|i: int| 0 <= i < a.len() implies 0 <= #[trigger] p(i) < b.len() && a[i]
                == b[p(i)] by {
                assert(hash_of(want[i].1) is Some);
                assert(hash_of(have[p(i)].1) is Some);
                lemma_text_eq_hash(want[i].0, have[p(i)].0);
            }
            lemma_wsum_reordered(a, b, p);
        }
    }
}

/// Soundness of the hash: where a value compares deep-equal to an expected one, the two hash alike,
/// or one of them has no hash.
///
/// Of an actual object or array it is asked that it is as `serde_json`'s values are, which reading
/// one and writing one both say.
pub proof fn law_deep_equal_values_hash_alike(expected: JsonModel, actual: JsonModel)
    requires
        actual is Array || actual is Object ==> json::well_read(actual),
        compare::holds_read(
            deep_equals_rule(),
            expected,
            json::leaf_text(actual),
            Some(actual),
        ),
    ensures
        hash_of(expected) is None || hash_of(actual) is None || hash_of(expected) == hash_of(actual),
{
    match expected {
        JsonModel::Object(want) => {
            lemma_sound_members(expected, actual, want, actual->Object_0);
        },
        JsonModel::Array(want) => {
            lemma_sound_items(expected, actual, want, actual->Array_0);
        },
        _ => {
            if actual is Array || actual is Object {
                lemma_leaf_against_container(expected, json::leaf_text(actual));
            } else {
                lemma_leaf_hash(expected);
                lemma_leaf_hash(actual);
                lemma_text_eq_hash(json::leaf_text(expected), json::leaf_text(actual));
            }
        },
    }
}

/// Soundness of the body hash: where a request body compares deep-equal to an expected object or
/// array, the two hash alike, or one of them has no hash.
pub proof fn law_deep_equal_bodies_hash_alike(expected: JsonModel, body: Seq<char>, actual: JsonModel)
    requires
        expected is Array || expected is Object,
        json::json_read(body) == Some(actual),
        json::well_read(actual),
        compare::json_holds(deep_equals_rule(), expected, body),
    ensures
        hash_of(expected) is None || hash_of(actual) is None || hash_of(expected) == hash_of(actual),
{
    if actual is Array || actual is Object {
        lemma_sound(expected, actual, body);
    }
}

/// A value has no hash where its text alone does not tell what it is: a leaf whose text could be
/// JSON, an object with keys that are equal but for case, an inner container that does not read
/// back; nor has a container of such a value.
pub proof fn law_ambiguous_values_have_no_hash(
    leaf: JsonModel,
    entries: Seq<(Seq<char>, JsonModel)>,
    items: Seq<JsonModel>,
    i: int,
    j: int,
)
    ensures
        !(leaf is Object || leaf is Array) && json::jsonish(json::leaf_text(leaf)) ==> hash_of(leaf)
            is None,
        !(leaf is Object || leaf is Array) && !json::jsonish(json::leaf_text(leaf)) ==> hash_of(leaf)
            == Some(text_hash(lowered(json::leaf_text(leaf)))),
        0 <= i < j < entries.len() && text::text_eq(entries[i].0, entries[j].0, false) ==> hash_of(
            JsonModel::Object(entries),
        ) is None,
        0 <= i < entries.len() && (entries[i].1 is Object || entries[i].1 is Array)
            && json::json_read(json::json_text(entries[i].1)) != Some(entries[i].1) ==> hash_of(
            JsonModel::Object(entries),
        ) is None,
        0 <= i < items.len() && (items[i] is Object || items[i] is Array) && json::json_read(
            json::json_text(items[i]),
        ) != Some(items[i]) ==> hash_of(JsonModel::Array(items)) is None,
        0 <= i < entries.len() && hash_of(entries[i].1) is None ==> hash_of(
            JsonModel::Object(entries),
        ) is None,
        0 <= i < items.len() && hash_of(items[i]) is None ==> hash_of(JsonModel::Array(items))
            is None,
{
    if 0 <= i < j < entries.len() && text::text_eq(entries[i].0, entries[j].0, false) {
        assert(!keys_fold_apart(entries));
    }
    if 0 <= i < entries.len() && !reads_back(entries[i].1) {
        assert(!members_read_back(entries));
    }
    if 0 <= i < items.len() && !reads_back(items[i]) {
        assert(!items_read_back(items));
    }
    if 0 <= i < entries.len() && hash_of(entries[i].1) is None {
        lemma_member_without_hash(entries, i);
    }
    if 0 <= i < items.len() && hash_of(items[i]) is None {
        lemma_item_without_hash(items, i);
    }
}

proof fn lemma_member_without_hash(entries: Seq<(Seq<char>, JsonModel)>, i: int)
    requires
        0 <= i < entries.len(),
        hash_of(entries[i].1) is None,
    ensures
        member_sum(entries) is None,
    decreases entries.len(),
{
    if i < entries.len() - 1 {
        assert(entries.drop_last()[i] == entries[i]);
        lemma_member_without_hash(entries.drop_last(), i);
    }
}

proof fn lemma_item_without_hash(items: Seq<JsonModel>, i: int)
    requires
        0 <= i < items.len(),
        hash_of(items[i]) is None,
    ensures
        item_chain(items) is None,
    decreases items.len(),
{
    if i < items.len() - 1 {
        assert(items.drop_last()[i] == items[i]);
        lemma_item_without_hash(items.drop_last(), i);
    }
}

} // verus!
