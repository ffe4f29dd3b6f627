//! Text comparison as the matcher sees it.
//!
//! Every comparison runs over UTF-8 bytes. The default comparison folds ASCII letters only, so it
//! never changes a text's length and never touches a non-ASCII character; the case-sensitive one
//! compares the bytes as they are.

use vstd::prelude::*;
use vstd::utf8::*;

verus! {

/// One byte under the ASCII case fold.
pub open spec fn fold_byte(b: u8) -> u8 {
    if 65 <= b <= 90 {
        (b + 32) as u8
    } else {
        b
    }
}

/// A byte text under the ASCII case fold.
pub open spec fn fold(s: Seq<u8>) -> Seq<u8> {
    Seq::new(s.len(), |i: int| fold_byte(s[i]))
}

/// The bytes a text is compared by: its UTF-8 form, folded unless case matters.
pub open spec fn comparable(s: Seq<char>, case_sensitive: bool) -> Seq<u8> {
    if case_sensitive {
        encode_utf8(s)
    } else {
        fold(encode_utf8(s))
    }
}

/// Whether two texts compare equal.
pub open spec fn text_eq(a: Seq<char>, b: Seq<char>, case_sensitive: bool) -> bool {
    comparable(a, case_sensitive) == comparable(b, case_sensitive)
}

/// `n` stands at byte offset `at` of `h`.
pub open spec fn stands_at(h: Seq<u8>, n: Seq<u8>, at: int) -> bool {
    0 <= at && at + n.len() <= h.len() && h.subrange(at, at + n.len() as int) == n
}

/// Whether `needle` occurs somewhere in `haystack`.
pub open spec fn text_contains(
    haystack: Seq<char>,
    needle: Seq<char>,
    case_sensitive: bool,
) -> bool {
    exists|at: int|
        #[trigger] stands_at(
            comparable(haystack, case_sensitive),
            comparable(needle, case_sensitive),
            at,
        )
}

/// Whether `haystack` begins with `needle`.
pub open spec fn text_starts_with(
    haystack: Seq<char>,
    needle: Seq<char>,
    case_sensitive: bool,
) -> bool {
    stands_at(comparable(haystack, case_sensitive), comparable(needle, case_sensitive), 0)
}

/// Whether `haystack` ends with `needle`.
pub open spec fn text_ends_with(
    haystack: Seq<char>,
    needle: Seq<char>,
    case_sensitive: bool,
) -> bool {
    let h = comparable(haystack, case_sensitive);
    let n = comparable(needle, case_sensitive);
    stands_at(h, n, h.len() - n.len())
}

/// A case-sensitive comparison is equality of the texts.
pub proof fn lemma_exact_eq(a: Seq<char>, b: Seq<char>)
    ensures
        text_eq(a, b, true) == (a == b),
{
    encode_utf8_decode_utf8(a);
    encode_utf8_decode_utf8(b);
}

/// Equal texts compare equal under either comparison.
pub proof fn law_equal_texts_compare_equal(a: Seq<char>, case_sensitive: bool)
    ensures
        text_eq(a, a, case_sensitive),
        text_contains(a, a, case_sensitive),
        text_starts_with(a, a, case_sensitive),
        text_ends_with(a, a, case_sensitive),
{
    let h = comparable(a, case_sensitive);
    assert(h.subrange(0, h.len() as int) =~= h);
    assert(stands_at(h, h, 0));
}

/// An empty needle occurs in, begins and ends every text.
pub proof fn law_empty_needle_matches(haystack: Seq<char>, case_sensitive: bool)
    ensures
        text_contains(haystack, Seq::empty(), case_sensitive),
        text_starts_with(haystack, Seq::empty(), case_sensitive),
        text_ends_with(haystack, Seq::empty(), case_sensitive),
{
    let h = comparable(haystack, case_sensitive);
    let n = comparable(Seq::<char>::empty(), case_sensitive);
    assert(encode_utf8(Seq::<char>::empty()) =~= Seq::<u8>::empty());
    assert(n =~= Seq::<u8>::empty());
    assert(h.subrange(0, 0) =~= n);
    assert(h.subrange(h.len() as int, h.len() as int) =~= n);
    assert(stands_at(h, n, 0));
}

/// `String::push` appends the one character it is given.
pub assume_specification[ String::push ](s: &mut String, c: char)
    ensures
        final(s)@ == old(s)@.push(c),
;

/// `str::to_ascii_lowercase` maps the bytes `A` to `Z` to `a` to `z` and leaves every other byte
/// as it is.
pub assume_specification[ str::to_ascii_lowercase ](s: &str) -> (r: String)
    ensures
        encode_utf8(r@) == fold(encode_utf8(s@)),
;

fn fold_one(b: u8) -> (r: u8)
    ensures
        r == fold_byte(b),
{
    if 65 <= b && b <= 90 {
        b + 32
    } else {
        b
    }
}

/// Whether `n` stands at offset `at` of `h`, byte by byte.
fn bytes_stand_at(h: &[u8], n: &[u8], at: usize, case_sensitive: bool) -> (r: bool)
    requires
        at + n@.len() <= h@.len(),
    ensures
        r == (if case_sensitive {
            stands_at(h@, n@, at as int)
        } else {
            stands_at(fold(h@), fold(n@), at as int)
        }),
{
    let len: usize = n.len();
    let total: usize = h.len();
    let ghost hs = if case_sensitive {
        h@
    } else {
        fold(h@)
    };
    let ghost ns = if case_sensitive {
        n@
    } else {
        fold(n@)
    };
    let mut k: usize = 0;
    while k < len
        invariant
            k <= len,
            len == n@.len(),
            total == h@.len(),
            at + len <= total,
            hs == (if case_sensitive {
                h@
            } else {
                fold(h@)
            }),
            ns == (if case_sensitive {
                n@
            } else {
                fold(n@)
            }),
            forall|j: int| 0 <= j < k ==> hs[at + j] == ns[j],
        decreases len - k,
    {
        let a: u8 = h[at + k];
        let b: u8 = n[k];
        let equal: bool = if case_sensitive {
            a == b
        } else {
            fold_one(a) == fold_one(b)
        };
        if !equal {
            proof {
                assert(hs.subrange(at as int, at + ns.len() as int)[k as int] != ns[k as int]);
            }
            return false;
        }
        k += 1;
    }
    proof {
        assert(hs.subrange(at as int, at + ns.len() as int) =~= ns);
    }
    true
}

/// Whether two texts are equal, folding ASCII case unless `case_sensitive`.
pub fn texts_equal(a: &str, b: &str, case_sensitive: bool) -> (r: bool)
    ensures
        r == text_eq(a@, b@, case_sensitive),
{
    let x: &[u8] = a.as_bytes();
    let y: &[u8] = b.as_bytes();
    if x.len() != y.len() {
        proof {
            assert(comparable(a@, case_sensitive).len() != comparable(b@, case_sensitive).len());
        }
        return false;
    }
    proof {
        let p = comparable(a@, case_sensitive);
        assert(p.subrange(0, p.len() as int) =~= p);
    }
    bytes_stand_at(x, y, 0, case_sensitive)
}

/// Whether `needle` occurs in `haystack`, folding ASCII case unless `case_sensitive`.
pub fn contains_text(haystack: &str, needle: &str, case_sensitive: bool) -> (r: bool)
    ensures
        r == text_contains(haystack@, needle@, case_sensitive),
{
    let h: &[u8] = haystack.as_bytes();
    let n: &[u8] = needle.as_bytes();
    let ghost hs = comparable(haystack@, case_sensitive);
    let ghost ns = comparable(needle@, case_sensitive);
    if n.len() > h.len() {
        return false;
    }
    let last: usize = h.len() - n.len();
    let mut at: usize = 0;
    loop
        invariant
            h@ == encode_utf8(haystack@),
            n@ == encode_utf8(needle@),
            hs == comparable(haystack@, case_sensitive),
            ns == comparable(needle@, case_sensitive),
            last == h@.len() - n@.len(),
            at <= last,
            forall|j: int| 0 <= j < at ==> !stands_at(hs, ns, j),
        decreases last - at,
    {
        if bytes_stand_at(h, n, at, case_sensitive) {
            proof {
                assert(stands_at(hs, ns, at as int));
            }
            return true;
        }
        if at == last {
            proof {
                assert forall|j: int| !#[trigger] stands_at(hs, ns, j) by {
                    if j == at {
                    } else if j > at {
                    }
                }
            }
            return false;
        }
        at += 1;
    }
}

/// Whether `haystack` begins with `needle`, folding ASCII case unless `case_sensitive`.
pub fn starts_with_text(haystack: &str, needle: &str, case_sensitive: bool) -> (r: bool)
    ensures
        r == text_starts_with(haystack@, needle@, case_sensitive),
{
    let h: &[u8] = haystack.as_bytes();
    let n: &[u8] = needle.as_bytes();
    h.len() >= n.len() && bytes_stand_at(h, n, 0, case_sensitive)
}

/// Whether `haystack` ends with `needle`, folding ASCII case unless `case_sensitive`.
pub fn ends_with_text(haystack: &str, needle: &str, case_sensitive: bool) -> (r: bool)
    ensures
        r == text_ends_with(haystack@, needle@, case_sensitive),
{
    let h: &[u8] = haystack.as_bytes();
    let n: &[u8] = needle.as_bytes();
    h.len() >= n.len() && bytes_stand_at(h, n, h.len() - n.len(), case_sensitive)
}

/// ASCII case-insensitive substring test. An empty needle occurs in every text.
pub fn contains_ignore_ascii_case(haystack: &str, needle: &str) -> (r: bool)
    ensures
        r == text_contains(haystack@, needle@, false),
{
    contains_text(haystack, needle, false)
}

/// ASCII case-insensitive prefix test.
pub fn starts_with_ignore_ascii_case(haystack: &str, needle: &str) -> (r: bool)
    ensures
        r == text_starts_with(haystack@, needle@, false),
{
    starts_with_text(haystack, needle, false)
}

/// ASCII case-insensitive suffix test.
pub fn ends_with_ignore_ascii_case(haystack: &str, needle: &str) -> (r: bool)
    ensures
        r == text_ends_with(haystack@, needle@, false),
{
    ends_with_text(haystack, needle, false)
}

/// Whether two texts are the same characters.
pub fn same_text(a: &str, b: &str) -> (r: bool)
    ensures
        r == (a@ == b@),
{
    proof {
        lemma_exact_eq(a@, b@);
    }
    texts_equal(a, b, true)
}

/// The characters of a text.
pub fn chars_of(s: &str) -> (v: Vec<char>)
    ensures
        v@ == s@,
{
    let mut v: Vec<char> = Vec::new();
    for c in it: s.chars()
        invariant
            it.seq() == s@,
            v@ == it.seq().take(it.index() as int),
    {
        let ghost before = v@;
        v.push(c);
        proof {
            assert(v@ =~= it.seq().take(it.index() as int + 1));
        }
    }
    proof {
        assert(s@.take(s@.len() as int) =~= s@);
    }
    v
}

/// The characters `from..to` of `v` as a text.
pub fn text_of(v: &Vec<char>, from: usize, to: usize) -> (s: String)
    requires
        from <= to <= v@.len(),
    ensures
        s@ == v@.subrange(from as int, to as int),
{
    let mut s: String = String::new();
    let mut i: usize = from;
    while i < to
        invariant
            from <= i <= to <= v@.len(),
            s@ == v@.subrange(from as int, i as int),
        decreases to - i,
    {
        s.push(v[i]);
        i += 1;
        proof {
            assert(v@.subrange(from as int, i as int) =~= v@.subrange(from as int, i - 1).push(
                v@[i - 1],
            ));
        }
    }
    proof {
        assert(v@.subrange(from as int, from as int) =~= Seq::<char>::empty());
    }
    s
}

/// The decimal digit of `d`.
pub open spec fn digit(d: nat) -> char {
    ('0' as u32 + d as u32) as char
}

/// The decimal form of `n`.
pub open spec fn decimal(n: nat) -> Seq<char>
    decreases n,
{
    if n < 10 {
        seq![digit(n)]
    } else {
        decimal(n / 10).push(digit(n % 10))
    }
}

/// The decimal form of `n` as a text.
pub fn decimal_text(n: u64) -> (s: String)
    ensures
        s@ == decimal(n as nat),
    decreases n,
{
    let low: u8 = (n % 10) as u8;
    let c: char = (48u8 + low) as char;
    proof {
        assert(c == digit((n % 10) as nat));
    }
    let mut s: String = if n < 10 {
        String::new()
    } else {
        decimal_text(n / 10)
    };
    s.push(c);
    proof {
        if n < 10 {
            assert(s@ =~= decimal(n as nat));
        }
    }
    s
}

/// The number that decimal digits stand for.
pub open spec fn digits_value(s: Seq<char>) -> nat
    decreases s.len(),
{
    if s.len() == 0 {
        0
    } else {
        digits_value(s.drop_last()) * 10 + (s.last() as int - '0' as int) as nat
    }
}

/// The decimal text of a number is made of digits, and stands for it.
proof fn lemma_decimal_value(n: nat)
    ensures
        digits_value(decimal(n)) == n,
        decimal(n).len() > 0,
        forall|i: int| 0 <= i < decimal(n).len() ==> '0' <= #[trigger] decimal(n)[i] <= '9',
    decreases n,
{
    if n < 10 {
        let s = decimal(n);
        assert(s.drop_last() =~= Seq::<char>::empty());
        assert(digits_value(Seq::<char>::empty()) == 0);
        assert(s.last() as int == '0' as int + n);
    } else {
        lemma_decimal_value(n / 10);
        let s = decimal(n);
        assert(s.drop_last() =~= decimal(n / 10));
        assert(s.last() as int == '0' as int + n % 10);
    }
}

/// Two numbers have the same decimal text only where they are equal.
pub proof fn lemma_decimal_injective(a: nat, b: nat)
    requires
        decimal(a) == decimal(b),
    ensures
        a == b,
{
    lemma_decimal_value(a);
    lemma_decimal_value(b);
}

proof fn lemma_value_grows(s: Seq<char>, at: int)
    requires
        0 <= at <= s.len(),
        forall|i: int| 0 <= i < s.len() ==> '0' <= #[trigger] s[i] <= '9',
    ensures
        digits_value(s.take(at)) <= digits_value(s),
    decreases s.len() - at,
{
    if at < s.len() {
        assert(s.take(at + 1).drop_last() =~= s.take(at));
        lemma_value_grows(s, at + 1);
    } else {
        assert(s.take(at) =~= s);
    }
}

/// Reads a number from its decimal text: nothing but digits, and no leading zero.
pub fn parse_decimal(s: &str) -> (r: Option<u64>)
    ensures
        (match r {
            Some(n) => s@ == decimal(n as nat),
            None => forall|n: u64| #[trigger] decimal(n as nat) != s@,
        }),
{
    let chars: Vec<char> = chars_of(s);
    let mut n: u64 = 0;
    let mut i: usize = 0;
    while i < chars.len()
        invariant
            chars@ == s@,
            i <= chars@.len(),
            n == digits_value(s@.take(i as int)),
            forall|k: int| 0 <= k < i ==> '0' <= #[trigger] s@[k] <= '9',
        decreases chars@.len() - i,
    {
        let c: char = chars[i];
        if c < '0' || c > '9' {
            proof {
                assert forall|m: u64| #[trigger] decimal(m as nat) != s@ by {
                    lemma_decimal_value(m as nat);
                }
            }
            return None;
        }
        let d: u64 = (c as u32 - '0' as u32) as u64;
        proof {
            assert(s@.take(i + 1).drop_last() =~= s@.take(i as int));
        }
        if n > (u64::MAX - d) / 10 {
            proof {
                assert(digits_value(s@.take(i + 1)) > u64::MAX);
                assert forall|m: u64| #[trigger] decimal(m as nat) != s@ by {
                    lemma_decimal_value(m as nat);
                    if decimal(m as nat) == s@ {
                        lemma_value_grows(s@, i + 1);
                    }
                }
            }
            return None;
        }
        n = n * 10 + d;
        i += 1;
    }
    proof {
        assert(s@.take(s@.len() as int) =~= s@);
    }
    if same_text(decimal_text(n).as_str(), s) {
        Some(n)
    } else {
        proof {
            assert forall|m: u64| #[trigger] decimal(m as nat) != s@ by {
                lemma_decimal_value(m as nat);
            }
        }
        None
    }
}

/// A copy of an optional text.
pub fn copy_optional(s: &Option<String>) -> (r: Option<String>)
    ensures
        optional_text(r) == optional_text(*s),
{
    match s {
        Some(t) => Some(t.clone()),
        None => None,
    }
}

/// The view of an optional text.
pub open spec fn optional_text(s: Option<String>) -> Option<Seq<char>> {
    match s {
        Some(t) => Some(t@),
        None => None,
    }
}

/// The view of an optional reference to a text.
pub open spec fn optional_ref(s: Option<&String>) -> Option<Seq<char>> {
    match s {
        Some(t) => Some(t@),
        None => None,
    }
}

/// The view of an optional borrowed text.
pub open spec fn optional_str(s: Option<&str>) -> Option<Seq<char>> {
    match s {
        Some(t) => Some(t@),
        None => None,
    }
}

proof fn lemma_encode_joined(a: Seq<char>, b: Seq<char>)
    ensures
        encode_utf8(a + b) == encode_utf8(a) + encode_utf8(b),
    decreases a.len(),
{
    if a.len() == 0 {
        assert(a + b =~= b);
        assert(encode_utf8(a) =~= Seq::<u8>::empty());
        assert(encode_utf8(a) + encode_utf8(b) =~= encode_utf8(b));
    } else {
        lemma_encode_joined(a.drop_first(), b);
        assert((a + b).drop_first() =~= a.drop_first() + b);
        assert((a + b)[0] == a[0]);
        assert(encode_utf8(a + b) =~= encode_utf8(a) + encode_utf8(b));
    }
}

proof fn lemma_comparable_joined(a: Seq<char>, b: Seq<char>, case_sensitive: bool)
    ensures
        comparable(a + b, case_sensitive) == comparable(a, case_sensitive) + comparable(
            b,
            case_sensitive,
        ),
{
    lemma_encode_joined(a, b);
    assert(fold(encode_utf8(a + b)) =~= fold(encode_utf8(a)) + fold(encode_utf8(b)));
}

/// Where case matters, texts compare equal only where they are the same. Where it does not, they
/// do where every byte is the same but for the case of an ASCII letter.
pub proof fn law_only_ascii_case_is_ignored(a: Seq<char>, b: Seq<char>)
    ensures
        text_eq(a, b, true) <==> a == b,
        text_eq(a, b, false) <==> encode_utf8(a).len() == encode_utf8(b).len() && (forall|i: int|
            0 <= i < encode_utf8(a).len() ==> {
                let x = #[trigger] encode_utf8(a)[i];
                let y = encode_utf8(b)[i];
                x == y || (65 <= x <= 90 && y == x + 32) || (65 <= y <= 90 && x == y + 32)
            }),
{
    lemma_exact_eq(a, b);
    let x = encode_utf8(a);
    let y = encode_utf8(b);
    if text_eq(a, b, false) {
        assert(fold(x).len() == x.len());
        assert(fold(y).len() == y.len());
        assert forall|i: int| 0 <= i < x.len() implies x[i] == y[i] || (65 <= x[i] <= 90 && y[i]
            == x[i] + 32) || (65 <= y[i] <= 90 && x[i] == y[i] + 32) by {
            assert(fold(x)[i] == fold(y)[i]);
        }
    }
    if x.len() == y.len() && (forall|i: int|
        0 <= i < x.len() ==> #[trigger] x[i] == y[i] || (65 <= x[i] <= 90 && y[i] == x[i] + 32) || (
        65 <= y[i] <= 90 && x[i] == y[i] + 32)) {
        assert(fold(x) =~= fold(y));
    }
}

/// A text contains each of its parts, begins with what it begins with and ends with what it ends
/// with, whether case matters or not.
pub proof fn law_texts_contain_their_parts(
    before: Seq<char>,
    needle: Seq<char>,
    after: Seq<char>,
    case_sensitive: bool,
)
    ensures
        text_contains(before + needle + after, needle, case_sensitive),
        text_starts_with(needle + after, needle, case_sensitive),
        text_ends_with(before + needle, needle, case_sensitive),
{
    let b = comparable(before, case_sensitive);
    let n = comparable(needle, case_sensitive);
    let a = comparable(after, case_sensitive);
    lemma_comparable_joined(before, needle, case_sensitive);
    lemma_comparable_joined(before + needle, after, case_sensitive);
    lemma_comparable_joined(needle, after, case_sensitive);
    assert((b + n + a).subrange(b.len() as int, (b.len() + n.len()) as int) =~= n);
    assert(stands_at(b + n + a, n, b.len() as int));
    assert((n + a).subrange(0, n.len() as int) =~= n);
    assert((b + n).subrange(b.len() as int, (b.len() + n.len()) as int) =~= n);
}

/// Where case matters, what a text contains, begins with or ends with is part of its bytes.
pub proof fn law_needles_are_parts(haystack: Seq<char>, needle: Seq<char>)
    ensures
        text_contains(haystack, needle, true) <==> exists|b: Seq<u8>, a: Seq<u8>|
            encode_utf8(haystack) == #[trigger] (b + encode_utf8(needle) + a),
        text_starts_with(haystack, needle, true) <==> exists|a: Seq<u8>|
            encode_utf8(haystack) == #[trigger] (encode_utf8(needle) + a),
        text_ends_with(haystack, needle, true) <==> exists|b: Seq<u8>|
            encode_utf8(haystack) == #[trigger] (b + encode_utf8(needle)),
{
    let h = encode_utf8(haystack);
    let n = encode_utf8(needle);
    let whole = h.len() as int;
    if text_contains(haystack, needle, true) {
        let at = choose|at: int| stands_at(h, n, at);
        assert(h =~= h.subrange(0, at) + n + h.subrange(at + n.len(), whole));
    }
    if exists|b: Seq<u8>, a: Seq<u8>| h == #[trigger] (b + n + a) {
        let (b, a) = choose|b: Seq<u8>, a: Seq<u8>| h == #[trigger] (b + n + a);
        assert(h.subrange(b.len() as int, (b.len() + n.len()) as int) =~= n);
        assert(stands_at(h, n, b.len() as int));
    }
    if text_starts_with(haystack, needle, true) {
        assert(h =~= n + h.subrange(n.len() as int, whole));
    }
    if exists|a: Seq<u8>| h == #[trigger] (n + a) {
        let a = choose|a: Seq<u8>| h == #[trigger] (n + a);
        assert(h.subrange(0, n.len() as int) =~= n);
    }
    if text_ends_with(haystack, needle, true) {
        assert(h =~= h.subrange(0, whole - n.len()) + n);
    }
    if exists|b: Seq<u8>| h == #[trigger] (b + n) {
        let b = choose|b: Seq<u8>| h == #[trigger] (b + n);
        assert(h.subrange(b.len() as int, (b.len() + n.len()) as int) =~= n);
    }
}

/// Ignoring case refuses nothing that heeding it accepts, and what one spelling of a text is found
/// in, every spelling of it is found in.
pub proof fn law_ignoring_case_is_weaker(
    haystack: Seq<char>,
    needle: Seq<char>,
    spelling: Seq<char>,
)
    requires
        text_eq(needle, spelling, false),
    ensures
        text_eq(haystack, needle, true) ==> text_eq(haystack, needle, false),
        text_contains(haystack, needle, true) ==> text_contains(haystack, spelling, false),
        text_starts_with(haystack, needle, true) ==> text_starts_with(haystack, spelling, false),
        text_ends_with(haystack, needle, true) ==> text_ends_with(haystack, spelling, false),
        text_contains(haystack, needle, false) == text_contains(haystack, spelling, false),
        text_starts_with(haystack, needle, false) == text_starts_with(haystack, spelling, false),
        text_ends_with(haystack, needle, false) == text_ends_with(haystack, spelling, false),
{
    let h = encode_utf8(haystack);
    let n = encode_utf8(needle);
    assert forall|at: int| #[trigger] stands_at(h, n, at) implies stands_at(fold(h), fold(n), at) by {
        assert(fold(h).subrange(at, at + n.len() as int) =~= fold(n)) by {
            assert forall|i: int| 0 <= i < n.len() implies fold(h)[at + i] == fold(n)[i] by {
                assert(h.subrange(at, at + n.len() as int)[i] == n[i]);
            }
        }
    }
    assert(fold(h).len() == h.len() && fold(n).len() == n.len());
    if text_contains(haystack, needle, true) {
        let at = choose|at: int| #[trigger] stands_at(h, n, at);
        assert(stands_at(comparable(haystack, false), comparable(spelling, false), at));
    }
}

/// The decimal text of a number is digits alone, without a leading zero, and stands for it.
pub proof fn law_decimal_texts_stand_for_their_numbers(n: nat)
    ensures
        decimal(n).len() > 0,
        forall|i: int| 0 <= i < decimal(n).len() ==> '0' <= #[trigger] decimal(n)[i] <= '9',
        n > 0 ==> decimal(n)[0] != '0',
        n < 10 <==> decimal(n).len() == 1,
        n < 10 ==> decimal(n)[0] as int == '0' as int + n,
        n >= 10 ==> decimal(n) == decimal(n / 10) + decimal(n % 10),
    decreases n,
{
    lemma_decimal_value(n);
    if n >= 10 {
        law_decimal_texts_stand_for_their_numbers(n / 10);
        assert(decimal(n)[0] == decimal(n / 10)[0]);
        assert(decimal(n) =~= decimal(n / 10) + decimal(n % 10));
    } else {
        assert(decimal(n)[0] as int == '0' as int + n);
    }
}

} // verus!
