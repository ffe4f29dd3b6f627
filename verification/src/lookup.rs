//! Ordered key-value lists, looked up by key.
//!
//! A list keeps the order its entries came in, and a lookup takes the first entry whose key
//! compares equal.

use crate::text;
use vstd::prelude::*;

verus! {

/// The value of the first entry whose key compares equal to `key`.
pub open spec fn find_entry<T>(
    entries: Seq<(Seq<char>, T)>,
    key: Seq<char>,
    case_sensitive: bool,
) -> Option<T>
    decreases entries.len(),
{
    if entries.len() == 0 {
        None
    } else if text::text_eq(entries[0].0, key, case_sensitive) {
        Some(entries[0].1)
    } else {
        find_entry(entries.drop_first(), key, case_sensitive)
    }
}

/// Whether some entry's key compares equal to `key`.
pub open spec fn has_key<T>(
    entries: Seq<(Seq<char>, T)>,
    key: Seq<char>,
    case_sensitive: bool,
) -> bool {
    exists|i: int|
        0 <= i < entries.len() && text::text_eq((#[trigger] entries[i]).0, key, case_sensitive)
}

/// A lookup answers the value at the first position whose key compares equal.
pub proof fn lemma_find_at<T>(
    entries: Seq<(Seq<char>, T)>,
    key: Seq<char>,
    case_sensitive: bool,
    at: int,
)
    requires
        0 <= at < entries.len(),
        text::text_eq(entries[at].0, key, case_sensitive),
        forall|i: int|
            0 <= i < at ==> !text::text_eq((#[trigger] entries[i]).0, key, case_sensitive),
    ensures
        find_entry(entries, key, case_sensitive) == Some(entries[at].1),
        has_key(entries, key, case_sensitive),
    decreases entries.len(),
{
    if at > 0 {
        assert(!text::text_eq(entries[0].0, key, case_sensitive));
        let rest = entries.drop_first();
        assert forall|i: int| 0 <= i < at - 1 implies !text::text_eq(
            (#[trigger] rest[i]).0,
            key,
            case_sensitive,
        ) by {
            assert(rest[i] == entries[i + 1]);
        }
        lemma_find_at(rest, key, case_sensitive, at - 1);
    }
}

/// A lookup answers nothing exactly where no key compares equal.
pub proof fn lemma_find_none<T>(entries: Seq<(Seq<char>, T)>, key: Seq<char>, case_sensitive: bool)
    ensures
        find_entry(entries, key, case_sensitive) is Some == has_key(entries, key, case_sensitive),
    decreases entries.len(),
{
    if entries.len() > 0 {
        let rest = entries.drop_first();
        lemma_find_none(rest, key, case_sensitive);
        if has_key(rest, key, case_sensitive) {
            let i = choose|i: int|
                0 <= i < rest.len() && text::text_eq((#[trigger] rest[i]).0, key, case_sensitive);
            assert(text::text_eq(entries[i + 1].0, key, case_sensitive));
        }
        if has_key(entries, key, case_sensitive) {
            let i = choose|i: int|
                0 <= i < entries.len() && text::text_eq(
                    (#[trigger] entries[i]).0,
                    key,
                    case_sensitive,
                );
            if i > 0 {
                assert(rest[i - 1] == entries[i]);
            }
        }
    }
}

/// What a lookup answers stands in the list.
pub proof fn lemma_found_is_member<T>(
    entries: Seq<(Seq<char>, T)>,
    key: Seq<char>,
    case_sensitive: bool,
) -> (at: int)
    requires
        find_entry(entries, key, case_sensitive) is Some,
    ensures
        0 <= at < entries.len(),
        text::text_eq(entries[at].0, key, case_sensitive),
        find_entry(entries, key, case_sensitive) == Some(entries[at].1),
    decreases entries.len(),
{
    if text::text_eq(entries[0].0, key, case_sensitive) {
        0
    } else {
        let at = lemma_found_is_member(entries.drop_first(), key, case_sensitive);
        at + 1
    }
}

/// A list of texts keyed by text.
pub open spec fn pairs(list: Seq<(String, String)>) -> Seq<(Seq<char>, Seq<char>)> {
    Seq::new(list.len(), |i: int| (list[i].0@, list[i].1@))
}

/// The position of the first entry whose key compares equal to `key`.
pub fn position(list: &Vec<(String, String)>, key: &str, case_sensitive: bool) -> (r: Option<usize>)
    ensures
        (match r {
            Some(at) => at < list@.len() && text::text_eq(list@[at as int].0@, key@, case_sensitive)
                && find_entry(pairs(list@), key@, case_sensitive) == Some(list@[at as int].1@)
                && forall|i: int|
                0 <= i < at ==> !text::text_eq((#[trigger] list@[i]).0@, key@, case_sensitive),
            None => find_entry(pairs(list@), key@, case_sensitive) is None && forall|i: int|
                0 <= i < list@.len() ==> !text::text_eq(
                    (#[trigger] list@[i]).0@,
                    key@,
                    case_sensitive,
                ),
        }),
{
    let ghost all = pairs(list@);
    let mut i: usize = 0;
    while i < list.len()
        invariant
            all == pairs(list@),
            i <= list@.len(),
            forall|j: int|
                0 <= j < i ==> !text::text_eq((#[trigger] list@[j]).0@, key@, case_sensitive),
        decreases list@.len() - i,
    {
        if text::texts_equal(list[i].0.as_str(), key, case_sensitive) {
            proof {
                assert forall|j: int| 0 <= j < i implies !text::text_eq(
                    (#[trigger] all[j]).0,
                    key@,
                    case_sensitive,
                ) by {
                    assert(!text::text_eq(list@[j].0@, key@, case_sensitive));
                }
                lemma_find_at(all, key@, case_sensitive, i as int);
            }
            return Some(i);
        }
        i += 1;
    }
    proof {
        lemma_find_none(all, key@, case_sensitive);
        if has_key(all, key@, case_sensitive) {
            let j = choose|j: int|
                0 <= j < all.len() && text::text_eq((#[trigger] all[j]).0, key@, case_sensitive);
            assert(text::text_eq(list@[j].0@, key@, case_sensitive));
        }
    }
    None
}

/// The value of the first entry whose key compares equal to `key`.
pub fn find<'a>(list: &'a Vec<(String, String)>, key: &str, case_sensitive: bool) -> (r: Option<
    &'a String,
>)
    ensures
        (match r {
            Some(v) => find_entry(pairs(list@), key@, case_sensitive) == Some(v@),
            None => find_entry(pairs(list@), key@, case_sensitive) is None,
        }),
{
    match position(list, key, case_sensitive) {
        Some(at) => Some(&list[at].1),
        None => None,
    }
}

/// Copies a list.
pub fn copy_list(list: &Vec<(String, String)>) -> (r: Vec<(String, String)>)
    ensures
        pairs(r@) == pairs(list@),
        r@.len() == list@.len(),
{
    let mut r: Vec<(String, String)> = Vec::new();
    let mut i: usize = 0;
    while i < list.len()
        invariant
            i <= list@.len(),
            r@.len() == i,
            forall|k: int|
                0 <= k < i ==> (#[trigger] r@[k]).0@ == list@[k].0@ && r@[k].1@ == list@[k].1@,
        decreases list@.len() - i,
    {
        r.push((list[i].0.clone(), list[i].1.clone()));
        i += 1;
    }
    proof {
        assert(pairs(r@) =~= pairs(list@));
    }
    r
}

/// Whether two lists hold the same entries in the same order.
pub fn same_list(a: &Vec<(String, String)>, b: &Vec<(String, String)>) -> (r: bool)
    ensures
        r == (pairs(a@) == pairs(b@)),
{
    if a.len() != b.len() {
        proof {
            assert(pairs(a@).len() != pairs(b@).len());
        }
        return false;
    }
    let mut i: usize = 0;
    while i < a.len()
        invariant
            a@.len() == b@.len(),
            i <= a@.len(),
            forall|k: int|
                0 <= k < i ==> (#[trigger] a@[k]).0@ == b@[k].0@ && a@[k].1@ == b@[k].1@,
        decreases a@.len() - i,
    {
        if !text::same_text(a[i].0.as_str(), b[i].0.as_str()) || !text::same_text(
            a[i].1.as_str(),
            b[i].1.as_str(),
        ) {
            proof {
                assert(pairs(a@)[i as int] != pairs(b@)[i as int]);
            }
            return false;
        }
        i += 1;
    }
    proof {
        assert(pairs(a@) =~= pairs(b@));
    }
    true
}

/// A lookup answers the value of the first entry whose key compares equal, and nothing where no key
/// does; and a list is seen as it is, entry by entry.
pub proof fn law_lookups_answer_the_first_equal_key<T>(
    entries: Seq<(Seq<char>, T)>,
    list: Seq<(String, String)>,
    key: Seq<char>,
    case_sensitive: bool,
    at: int,
)
    ensures
        0 <= at < entries.len() && text::text_eq(entries[at].0, key, case_sensitive) && (forall|
            i: int,
        |
            0 <= i < at ==> !text::text_eq((#[trigger] entries[i]).0, key, case_sensitive))
            ==> find_entry(entries, key, case_sensitive) == Some(entries[at].1),
        (forall|i: int|
            0 <= i < entries.len() ==> !text::text_eq(
                (#[trigger] entries[i]).0,
                key,
                case_sensitive,
            )) ==> find_entry(entries, key, case_sensitive) is None && !has_key(
            entries,
            key,
            case_sensitive,
        ),
        0 <= at < entries.len() && text::text_eq(entries[at].0, key, case_sensitive) ==> has_key(
            entries,
            key,
            case_sensitive,
        ),
        pairs(list).len() == list.len(),
        0 <= at < list.len() ==> pairs(list)[at].0 == list[at].0@ && pairs(list)[at].1
            == list[at].1@,
{
    if 0 <= at < entries.len() && text::text_eq(entries[at].0, key, case_sensitive) && (forall|
        i: int,
    |
        0 <= i < at ==> !text::text_eq((#[trigger] entries[i]).0, key, case_sensitive)) {
        lemma_find_at(entries, key, case_sensitive, at);
    }
    lemma_find_none(entries, key, case_sensitive);
}

} // verus!
