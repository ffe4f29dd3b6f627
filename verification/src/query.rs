//! Query strings and URL-encoded forms.

use crate::lookup;
use crate::text;
use vstd::prelude::*;
use vstd::utf8::*;

verus! {

/// `std::string::FromUtf8Error`, opaque.
#[verifier::external_type_specification]
#[verifier::external_body]
pub struct ExFromUtf8Error(std::string::FromUtf8Error);

/// `String::from_utf8` succeeds exactly on valid UTF-8, with the text those bytes encode.
pub assume_specification[ String::from_utf8 ](v: Vec<u8>) -> (r: Result<
    String,
    std::string::FromUtf8Error,
>)
    ensures
        (match r {
            Ok(s) => valid_utf8(v@) && s@ == decode_utf8(v@),
            Err(_) => !valid_utf8(v@),
        }),
;

/// Whether a byte is an ASCII hexadecimal digit.
pub open spec fn is_hex(b: u8) -> bool {
    48 <= b <= 57 || 65 <= b <= 70 || 97 <= b <= 102
}

/// The value of an ASCII hexadecimal digit.
pub open spec fn hex_value(b: u8) -> int {
    if 48 <= b <= 57 {
        b - 48
    } else if 65 <= b <= 70 {
        b - 55
    } else {
        b - 87
    }
}

/// The bytes with every `%XX` escape replaced by the byte it names. A `%` that no two hexadecimal
/// digits follow stands for itself.
pub open spec fn percent_decoded(b: Seq<u8>) -> Seq<u8>
    decreases b.len(),
{
    if b.len() == 0 {
        Seq::empty()
    } else if b[0] == 37 && b.len() >= 3 && is_hex(b[1]) && is_hex(b[2]) {
        seq![(hex_value(b[1]) * 16 + hex_value(b[2])) as u8] + percent_decoded(b.skip(3))
    } else {
        seq![b[0]] + percent_decoded(b.skip(1))
    }
}

/// A text with its escapes decoded, or the text itself where the decoded bytes are not UTF-8.
pub open spec fn decoded(s: Seq<char>) -> Seq<char> {
    let d = percent_decoded(encode_utf8(s));
    if valid_utf8(d) {
        decode_utf8(d)
    } else {
        s
    }
}

/// Where `c` first stands in `s`, or the length of `s`.
pub open spec fn first_index(s: Seq<char>, c: char) -> int
    decreases s.len(),
{
    if s.len() == 0 {
        0
    } else if s[0] == c {
        0
    } else {
        1 + first_index(s.drop_first(), c)
    }
}

/// `first_index` is the first position that holds `c`.
pub proof fn lemma_first_index(s: Seq<char>, c: char, at: int)
    requires
        0 <= at <= s.len(),
        at < s.len() ==> s[at] == c,
        forall|i: int| 0 <= i < at ==> s[i] != c,
    ensures
        first_index(s, c) == at,
    decreases s.len(),
{
    if at > 0 {
        lemma_first_index(s.drop_first(), c, at - 1);
    }
}

/// The pieces of a text between the separators, empty ones included.
pub open spec fn pieces(s: Seq<char>, sep: char) -> Seq<Seq<char>>
    decreases s.len(),
{
    let k = first_index(s, sep);
    if 0 <= k < s.len() {
        seq![s.take(k)] + pieces(s.skip(k + 1), sep)
    } else {
        seq![s]
    }
}

/// A parameter's key and value. Without `=` the value is empty.
pub open spec fn parameter(piece: Seq<char>) -> (Seq<char>, Seq<char>) {
    let k = first_index(piece, '=');
    if 0 <= k < piece.len() {
        (decoded(piece.take(k)), decoded(piece.skip(k + 1)))
    } else {
        (decoded(piece), decoded(Seq::empty()))
    }
}

/// The parameters after one more: a key seen before has the value appended behind a comma.
pub open spec fn with_parameter(
    params: Seq<(Seq<char>, Seq<char>)>,
    key: Seq<char>,
    value: Seq<char>,
) -> Seq<(Seq<char>, Seq<char>)>
    decreases params.len(),
{
    if params.len() == 0 {
        seq![(key, value)]
    } else if params[0].0 == key {
        params.update(0, (params[0].0, params[0].1.push(',') + value))
    } else {
        seq![params[0]] + with_parameter(params.drop_first(), key, value)
    }
}

/// The parameters of a list of pieces; empty pieces hold none.
pub open spec fn parameters(list: Seq<Seq<char>>) -> Seq<(Seq<char>, Seq<char>)>
    decreases list.len(),
{
    if list.len() == 0 {
        Seq::empty()
    } else {
        let before = parameters(list.drop_last());
        if list.last().len() == 0 {
            before
        } else {
            with_parameter(before, parameter(list.last()).0, parameter(list.last()).1)
        }
    }
}

/// The parameters of a query string.
pub open spec fn query_parameters(query: Seq<char>) -> Seq<(Seq<char>, Seq<char>)> {
    parameters(pieces(query, '&'))
}

/// The parameters of an optional query string: none where there is no query.
pub open spec fn optional_query_parameters(query: Option<Seq<char>>) -> Seq<
    (Seq<char>, Seq<char>),
> {
    match query {
        Some(q) => query_parameters(q),
        None => Seq::empty(),
    }
}

fn hex_digit(b: u8) -> (r: Option<u8>)
    ensures
        r is Some == is_hex(b),
        r is Some ==> r->0 == hex_value(b) && r->0 < 16,
{
    if 48 <= b && b <= 57 {
        Some(b - 48)
    } else if 65 <= b && b <= 70 {
        Some(b - 55)
    } else if 97 <= b && b <= 102 {
        Some(b - 87)
    } else {
        None
    }
}

fn percent_decode(b: &[u8]) -> (out: Vec<u8>)
    ensures
        out@ == percent_decoded(b@),
{
    let n: usize = b.len();
    let mut out: Vec<u8> = Vec::new();
    let mut i: usize = 0;
    proof {
        assert(b@.skip(0) =~= b@);
        assert(out@ + percent_decoded(b@) =~= percent_decoded(b@));
    }
    while i < n
        invariant
            n == b@.len(),
            i <= n,
            out@ + percent_decoded(b@.skip(i as int)) == percent_decoded(b@),
        decreases n - i,
    {
        let ghost before = out@;
        let ghost rest = b@.skip(i as int);
        if b[i] == 37 && n - i >= 3 {
            if let (Some(hi), Some(lo)) = (hex_digit(b[i + 1]), hex_digit(b[i + 2])) {
                out.push(hi * 16 + lo);
                i += 3;
                proof {
                    assert(rest.skip(3) =~= b@.skip(i as int));
                    assert(out@ + percent_decoded(b@.skip(i as int)) =~= before + percent_decoded(
                        rest,
                    ));
                }
                continue;
            }
        }
        out.push(b[i]);
        i += 1;
        proof {
            assert(rest.skip(1) =~= b@.skip(i as int));
            assert(out@ + percent_decoded(b@.skip(i as int)) =~= before + percent_decoded(rest));
        }
    }
    proof {
        assert(b@.skip(n as int) =~= Seq::<u8>::empty());
        assert(out@ + Seq::<u8>::empty() =~= out@);
    }
    out
}

/// Decodes the `%XX` escapes of a text. What would not be UTF-8 comes back as it was, so distinct
/// undecodable texts stay distinct.
pub fn decode_or_raw(s: &str) -> (r: String)
    ensures
        r@ == decoded(s@),
{
    match String::from_utf8(percent_decode(s.as_bytes())) {
        Ok(d) => d,
        Err(_) => s.to_owned(),
    }
}

/// Adds one parameter, joining the values of a repeated key with a comma.
fn add_parameter(params: &mut Vec<(String, String)>, key: String, value: String)
    ensures
        lookup::pairs(final(params)@) == with_parameter(lookup::pairs(old(params)@), key@, value@),
{
    let ghost all = lookup::pairs(params@);
    match lookup::position(params, key.as_str(), true) {
        Some(at) => {
            proof {
                assert forall|i: int| 0 <= i < at implies (#[trigger] all[i]).0 != key@ by {
                    assert(!text::text_eq(params@[i].0@, key@, true));
                    text::lemma_exact_eq(params@[i].0@, key@);
                }
                text::lemma_exact_eq(params@[at as int].0@, key@);
                lemma_with_parameter_at(all, key@, value@, at as int);
            }
            let name: String = params[at].0.clone();
            let mut joined: String = params[at].1.clone();
            joined.push(',');
            joined.append(value.as_str());
            params.set(at, (name, joined));
            proof {
                assert(lookup::pairs(params@) =~= all.update(
                    at as int,
                    (all[at as int].0, all[at as int].1.push(',') + value@),
                ));
            }
        },
        None => {
            proof {
                assert forall|i: int| 0 <= i < all.len() implies (#[trigger] all[i]).0 != key@ by {
                    assert(!text::text_eq(params@[i].0@, key@, true));
                    text::lemma_exact_eq(params@[i].0@, key@);
                }
                lemma_with_parameter_new(all, key@, value@);
            }
            params.push((key, value));
            proof {
                assert(lookup::pairs(params@) =~= all.push((key@, value@)));
            }
        },
    }
}

proof fn lemma_with_parameter_at(
    params: Seq<(Seq<char>, Seq<char>)>,
    key: Seq<char>,
    value: Seq<char>,
    at: int,
)
    requires
        0 <= at < params.len(),
        params[at].0 == key,
        forall|i: int| 0 <= i < at ==> (#[trigger] params[i]).0 != key,
    ensures
        with_parameter(params, key, value) == params.update(
            at,
            (params[at].0, params[at].1.push(',') + value),
        ),
    decreases params.len(),
{
    if at > 0 {
        assert(params[0].0 != key);
        let rest = params.drop_first();
        assert forall|i: int| 0 <= i < at - 1 implies (#[trigger] rest[i]).0 != key by {
            assert(rest[i] == params[i + 1]);
        }
        lemma_with_parameter_at(rest, key, value, at - 1);
        assert(with_parameter(params, key, value) =~= params.update(
            at,
            (params[at].0, params[at].1.push(',') + value),
        ));
    }
}

proof fn lemma_with_parameter_new(
    params: Seq<(Seq<char>, Seq<char>)>,
    key: Seq<char>,
    value: Seq<char>,
)
    requires
        forall|i: int| 0 <= i < params.len() ==> (#[trigger] params[i]).0 != key,
    ensures
        with_parameter(params, key, value) == params.push((key, value)),
    decreases params.len(),
{
    if params.len() > 0 {
        assert(params[0].0 != key);
        let rest = params.drop_first();
        assert forall|i: int| 0 <= i < rest.len() implies (#[trigger] rest[i]).0 != key by {
            assert(rest[i] == params[i + 1]);
        }
        lemma_with_parameter_new(rest, key, value);
        assert(with_parameter(params, key, value) =~= params.push((key, value)));
    } else {
        assert(with_parameter(params, key, value) =~= params.push((key, value)));
    }
}

/// Where `c` first stands in `v[from..]`, as a position in `v`, or the length of `v`.
pub(crate) fn index_from(v: &Vec<char>, from: usize, to: usize, c: char) -> (r: usize)
    requires
        from <= to <= v@.len(),
    ensures
        from <= r <= to,
        r - from == first_index(v@.subrange(from as int, to as int), c),
{
    let mut i: usize = from;
    while i < to
        invariant
            from <= i <= to <= v@.len(),
            forall|j: int| from <= j < i ==> v@[j] != c,
        decreases to - i,
    {
        if v[i] == c {
            proof {
                lemma_first_index(v@.subrange(from as int, to as int), c, i - from);
            }
            return i;
        }
        i += 1;
    }
    proof {
        lemma_first_index(v@.subrange(from as int, to as int), c, to - from);
    }
    to
}

/// Splits a text at every separator.
pub fn split_text(s: &str, sep: char) -> (out: Vec<String>)
    ensures
        out@.len() == pieces(s@, sep).len(),
        forall|i: int| 0 <= i < out@.len() ==> (#[trigger] out@[i])@ == pieces(s@, sep)[i],
{
    let v: Vec<char> = text::chars_of(s);
    let n: usize = v.len();
    let mut out: Vec<String> = Vec::new();
    let mut start: usize = 0;
    let ghost all = pieces(s@, sep);
    proof {
        assert(v@.skip(0) =~= v@);
    }
    loop
        invariant_except_break
            out@.len() + pieces(v@.skip(start as int), sep).len() == all.len(),
            forall|i: int| 0 <= i < out@.len() ==> (#[trigger] out@[i])@ == all[i],
            forall|i: int|
                0 <= i < pieces(v@.skip(start as int), sep).len() ==> pieces(
                    v@.skip(start as int),
                    sep,
                )[i] == #[trigger] all[out@.len() + i],
        invariant
            v@ == s@,
            n == v@.len(),
            start <= n,
            all == pieces(s@, sep),
        ensures
            out@.len() == all.len(),
            forall|i: int| 0 <= i < out@.len() ==> (#[trigger] out@[i])@ == all[i],
        decreases n - start,
    {
        let end: usize = index_from(&v, start, n, sep);
        let ghost rest = v@.skip(start as int);
        let ghost had = out@.len() as int;
        proof {
            assert(v@.subrange(start as int, n as int) =~= rest);
            assert(pieces(rest, sep)[0] == all[had + 0]);
        }
        out.push(text::text_of(&v, start, end));
        if end == n {
            proof {
                assert(rest =~= v@.subrange(start as int, end as int));
            }
            break;
        }
        proof {
            assert(rest.take(end - start) =~= v@.subrange(start as int, end as int));
            assert(rest.skip(end - start + 1) =~= v@.skip(end + 1));
            let tail = pieces(v@.skip(end + 1), sep);
            assert forall|i: int| 0 <= i < tail.len() implies tail[i] == #[trigger] all[had + 1
                + i] by {
                assert(pieces(rest, sep)[i + 1] == all[had + (i + 1)]);
            }
        }
        start = end + 1;
    }
    out
}

/// Splits a parameter into its decoded key and value.
fn split_parameter(piece: &str) -> (r: (String, String))
    ensures
        (r.0@, r.1@) == parameter(piece@),
{
    let v: Vec<char> = text::chars_of(piece);
    let n: usize = v.len();
    let k: usize = index_from(&v, 0, n, '=');
    proof {
        assert(v@.subrange(0, n as int) =~= v@);
    }
    if k == n {
        let empty: String = String::new();
        (decode_or_raw(piece), decode_or_raw(empty.as_str()))
    } else {
        let key: String = text::text_of(&v, 0, k);
        let value: String = text::text_of(&v, k + 1, n);
        proof {
            assert(key@ =~= v@.take(k as int));
            assert(value@ =~= v@.skip(k + 1));
        }
        (decode_or_raw(key.as_str()), decode_or_raw(value.as_str()))
    }
}

/// Parses a query string, decoding keys and values.
///
/// A bare parameter has an empty value; the values of a repeated key are joined with commas.
pub fn parse_query_string(query: &str) -> (params: Vec<(String, String)>)
    ensures
        lookup::pairs(params@) == query_parameters(query@),
{
    let list: Vec<String> = split_text(query, '&');
    let ghost all = pieces(query@, '&');
    let mut params: Vec<(String, String)> = Vec::new();
    let mut i: usize = 0;
    proof {
        assert(lookup::pairs(params@) =~= parameters(all.take(0)));
    }
    while i < list.len()
        invariant
            i <= list@.len() == all.len(),
            forall|k: int| 0 <= k < list@.len() ==> (#[trigger] list@[k])@ == all[k],
            lookup::pairs(params@) == parameters(all.take(i as int)),
        decreases list@.len() - i,
    {
        proof {
            assert(all.take(i + 1).drop_last() =~= all.take(i as int));
            assert(list@[i as int]@ == all[i as int]);
        }
        if !list[i].as_str().is_empty() {
            let (key, value) = split_parameter(list[i].as_str());
            add_parameter(&mut params, key, value);
        }
        i += 1;
    }
    proof {
        assert(all.take(all.len() as int) =~= all);
    }
    params
}

/// Parses an optional query string.
pub fn parse_query(query: Option<&str>) -> (params: Vec<(String, String)>)
    ensures
        lookup::pairs(params@) == optional_query_parameters(text::optional_str(query)),
{
    match query {
        Some(q) => parse_query_string(q),
        None => {
            let params: Vec<(String, String)> = Vec::new();
            proof {
                assert(lookup::pairs(params@) =~= Seq::<(Seq<char>, Seq<char>)>::empty());
            }
            params
        },
    }
}

proof fn lemma_with_parameter_keys(
    params: Seq<(Seq<char>, Seq<char>)>,
    key: Seq<char>,
    value: Seq<char>,
)
    requires
        forall|i: int, j: int|
            0 <= i < j < params.len() ==> #[trigger] params[i].0 != #[trigger] params[j].0,
    ensures
        forall|i: int, j: int|
            0 <= i < j < with_parameter(params, key, value).len() ==> #[trigger] with_parameter(
                params,
                key,
                value,
            )[i].0 != #[trigger] with_parameter(params, key, value)[j].0,
{
    if exists|i: int| 0 <= i < params.len() && (#[trigger] params[i]).0 == key {
        let at = choose|i: int| 0 <= i < params.len() && (#[trigger] params[i]).0 == key;
        assert forall|i: int| 0 <= i < at implies (#[trigger] params[i]).0 != key by {
            assert(params[i].0 != params[at].0);
        }
        lemma_with_parameter_at(params, key, value, at);
    } else {
        lemma_with_parameter_new(params, key, value);
    }
}

proof fn lemma_parameters_keys(list: Seq<Seq<char>>)
    ensures
        forall|i: int, j: int|
            0 <= i < j < parameters(list).len() ==> #[trigger] parameters(list)[i].0
                != #[trigger] parameters(list)[j].0,
    decreases list.len(),
{
    if list.len() > 0 {
        lemma_parameters_keys(list.drop_last());
        lemma_with_parameter_keys(
            parameters(list.drop_last()),
            parameter(list.last()).0,
            parameter(list.last()).1,
        );
    }
}

/// No key stands twice among a query's parameters: repeated keys were joined.
pub proof fn law_query_keys_are_distinct(query: Seq<char>)
    ensures
        forall|i: int, j: int|
            0 <= i < j < query_parameters(query).len() ==> #[trigger] query_parameters(query)[i].0
                != #[trigger] query_parameters(query)[j].0,
{
    lemma_parameters_keys(pieces(query, '&'));
}

/// An escape is decoded to the byte that its two digits name, in either case of the letters; any
/// other byte stands for itself, and so does a `%` that begins no escape.
pub proof fn law_escapes_name_bytes(hi: int, lo: int, high: u8, low: u8, b: u8, rest: Seq<u8>)
    requires
        0 <= hi < 16,
        0 <= lo < 16,
        high == (if hi < 10 {
            48 + hi
        } else {
            55 + hi
        }) || (hi >= 10 && high == 87 + hi),
        low == (if lo < 10 {
            48 + lo
        } else {
            55 + lo
        }) || (lo >= 10 && low == 87 + lo),
    ensures
        percent_decoded(seq![37u8, high, low] + rest) == seq![(hi * 16 + lo) as u8]
            + percent_decoded(rest),
        b != 37 ==> percent_decoded(seq![b] + rest) == seq![b] + percent_decoded(rest),
        percent_decoded(Seq::empty()).len() == 0,
        rest.len() < 2 || !is_hex(rest[0]) || !is_hex(rest[1]) ==> percent_decoded(
            seq![37u8] + rest,
        ) == seq![37u8] + percent_decoded(rest),
{
    let s = seq![37u8, high, low] + rest;
    assert(s[0] == 37 && s[1] == high && s[2] == low && s.len() >= 3);
    assert(s.skip(3) =~= rest);
    let t = seq![b] + rest;
    assert(t[0] == b);
    assert(t.skip(1) =~= rest);
    let u = seq![37u8] + rest;
    assert(u[0] == 37);
    assert(u.skip(1) =~= rest);
    assert(rest.len() >= 2 ==> u[1] == rest[0] && u[2] == rest[1]);
}

/// Only the digits and the letters up to `f`, of either case, are digits of an escape.
pub proof fn law_escapes_are_hexadecimal(b: u8)
    ensures
        is_hex(b) <==> ('0' as u8 <= b <= '9' as u8 || 'A' as u8 <= b <= 'F' as u8 || 'a' as u8
            <= b <= 'f' as u8),
{
}

proof fn lemma_without_escapes(b: Seq<u8>)
    requires
        forall|i: int| 0 <= i < b.len() ==> #[trigger] b[i] != 37,
    ensures
        percent_decoded(b) == b,
    decreases b.len(),
{
    if b.len() > 0 {
        assert(b[0] != 37);
        assert forall|i: int| 0 <= i < b.skip(1).len() implies #[trigger] b.skip(1)[i] != 37 by {
            assert(b.skip(1)[i] == b[i + 1]);
        }
        lemma_without_escapes(b.skip(1));
        assert(seq![b[0]] + b.skip(1) =~= b);
    } else {
        assert(percent_decoded(b) =~= b);
    }
}

/// A text without escapes stands for itself; one whose escapes decode to no text does too; and any
/// other is the text that its decoded bytes encode.
pub proof fn law_decoded_texts_are_their_bytes(s: Seq<char>)
    ensures
        (forall|i: int| 0 <= i < encode_utf8(s).len() ==> #[trigger] encode_utf8(s)[i] != 37)
            ==> decoded(s) == s,
        valid_utf8(percent_decoded(encode_utf8(s))) ==> encode_utf8(decoded(s)) == percent_decoded(
            encode_utf8(s),
        ),
        !valid_utf8(percent_decoded(encode_utf8(s))) ==> decoded(s) == s,
{
    let b = encode_utf8(s);
    if forall|i: int| 0 <= i < b.len() ==> #[trigger] b[i] != 37 {
        lemma_without_escapes(b);
        encode_utf8_decode_utf8(s);
    }
    if valid_utf8(percent_decoded(b)) {
        decode_utf8_encode_utf8(percent_decoded(b));
    }
}

proof fn lemma_first_index_is_first(s: Seq<char>, c: char)
    ensures
        0 <= first_index(s, c) <= s.len(),
        first_index(s, c) < s.len() ==> s[first_index(s, c)] == c,
        forall|i: int| 0 <= i < first_index(s, c) ==> #[trigger] s[i] != c,
    decreases s.len(),
{
    if s.len() > 0 && s[0] != c {
        let rest = s.drop_first();
        lemma_first_index_is_first(rest, c);
        assert forall|i: int| 0 <= i < first_index(s, c) implies #[trigger] s[i] != c by {
            if i > 0 {
                assert(rest[i - 1] == s[i]);
            }
        }
    }
}

/// A text is its pieces with the separator between them, and no piece holds a separator.
pub proof fn law_pieces_make_the_text(s: Seq<char>, sep: char)
    ensures
        pieces(s, sep).len() > 0,
        crate::record::joined(pieces(s, sep), seq![sep]) == s,
        forall|i: int| 0 <= i < pieces(s, sep).len() ==> !(#[trigger] pieces(s, sep)[i]).contains(sep),
    decreases s.len(),
{
    let k = first_index(s, sep);
    lemma_first_index_is_first(s, sep);
    if 0 <= k < s.len() {
        let rest = s.skip(k + 1);
        law_pieces_make_the_text(rest, sep);
        let first = seq![s.take(k)];
        crate::record::law_texts_are_joined_in_order(s.take(k), first, pieces(rest, sep), seq![sep]);
        assert(s.take(k) + seq![sep] + rest =~= s);
        assert forall|i: int| 0 <= i < pieces(s, sep).len() implies !(#[trigger] pieces(
            s,
            sep,
        )[i]).contains(sep) by {
            if i == 0 {
                assert(pieces(s, sep)[0] == s.take(k));
                assert forall|j: int| 0 <= j < k implies s.take(k)[j] != sep by {
                    assert(s[j] != sep);
                }
            } else {
                assert(pieces(s, sep)[i] == pieces(rest, sep)[i - 1]);
            }
        }
    } else {
        assert(!s.contains(sep)) by {
            assert forall|i: int| 0 <= i < s.len() implies s[i] != sep by {
            }
        }
        assert(pieces(s, sep) =~= seq![s]);
    }
}

/// A parameter is split at its first `=`: what stands before is its key and all that stands behind
/// its value, each decoded. Without one it is all key, and its value is empty.
pub proof fn law_parameters_are_split_at_the_first_equals(key: Seq<char>, value: Seq<char>)
    requires
        !key.contains('='),
    ensures
        parameter(key + seq!['='] + value) == (decoded(key), decoded(value)),
        parameter(key).0 == decoded(key),
        parameter(key).1.len() == 0,
{
    let piece = key + seq!['='] + value;
    let at = key.len() as int;
    assert(piece[at] == '=');
    assert forall|i: int| 0 <= i < at implies piece[i] != '=' by {
        assert(piece[i] == key[i]);
        assert(key.contains(key[i]));
    }
    lemma_first_index(piece, '=', at);
    assert(piece.take(at) =~= key);
    assert(piece.skip(at + 1) =~= value);
    assert forall|i: int| 0 <= i < at implies key[i] != '=' by {
        assert(key.contains(key[i]));
    }
    lemma_first_index(key, '=', at);
    let none = Seq::<char>::empty();
    assert(encode_utf8(none) =~= Seq::<u8>::empty());
    law_decoded_texts_are_their_bytes(none);
}

proof fn lemma_one_more_piece(s: Seq<char>, piece: Seq<char>, sep: char)
    requires
        !piece.contains(sep),
    ensures
        pieces(s + seq![sep] + piece, sep) == pieces(s, sep).push(piece),
        pieces(piece, sep) == seq![piece],
    decreases s.len(),
{
    let whole = s + seq![sep] + piece;
    let k = first_index(s, sep);
    lemma_first_index_is_first(s, sep);
    assert forall|i: int| 0 <= i < piece.len() implies piece[i] != sep by {
        assert(piece.contains(piece[i]));
    }
    lemma_first_index(piece, sep, piece.len() as int);
    assert(pieces(piece, sep) =~= seq![piece]);
    assert forall|i: int| 0 <= i < k implies whole[i] != sep by {
        assert(whole[i] == s[i]);
    }
    if k < s.len() {
        assert(whole[k] == s[k]);
    }
    lemma_first_index(whole, sep, k);
    if k < s.len() {
        let rest = s.skip(k + 1);
        lemma_one_more_piece(rest, piece, sep);
        assert(whole.skip(k + 1) =~= rest + seq![sep] + piece);
        assert(whole.take(k) =~= s.take(k));
        assert(pieces(whole, sep) =~= pieces(s, sep).push(piece));
    } else {
        assert(whole.skip(k + 1) =~= piece);
        assert(whole.take(k) =~= s);
        assert(pieces(whole, sep) =~= pieces(s, sep).push(piece));
    }
}

/// One more parameter behind a query adds its key and value at the end, where its key is new; where
/// it is not, its value joins behind a comma those that the key had, and the key keeps its place.
/// An empty parameter adds nothing, and an empty query has none.
pub proof fn law_one_more_parameter(
    query: Seq<char>,
    key: Seq<char>,
    value: Seq<char>,
    piece: Seq<char>,
)
    requires
        !piece.contains('&'),
        piece.len() > 0,
        parameter(piece) == (key, value),
    ensures
        ({
            let before = query_parameters(query);
            let after = query_parameters(query + seq!['&'] + piece);
            &&& query_parameters(piece) == seq![(key, value)]
            &&& query_parameters(Seq::empty()).len() == 0
            &&& query_parameters(query + seq!['&']) == before
            &&& (forall|i: int| 0 <= i < before.len() ==> (#[trigger] before[i]).0 != key) ==> after
                == before + seq![(key, value)]
            &&& forall|at: int|
                0 <= at < before.len() && (#[trigger] before[at]).0 == key ==> after
                    == before.update(at, (key, before[at].1 + seq![','] + value))
        }),
{
    let before = query_parameters(query);
    let after = query_parameters(query + seq!['&'] + piece);
    lemma_one_more_piece(query, piece, '&');
    let list = pieces(query, '&');
    assert(list.push(piece).drop_last() =~= list);
    assert(list.push(piece).last() == piece);
    assert(after == with_parameter(before, key, value));
    let none = Seq::<char>::empty();
    lemma_one_more_piece(query, none, '&');
    assert(query + seq!['&'] + none =~= query + seq!['&']);
    assert(list.push(none).drop_last() =~= list);
    let one = seq![piece];
    assert(one.drop_last() =~= Seq::<Seq<char>>::empty());
    assert(parameters(one.drop_last()) =~= Seq::<(Seq<char>, Seq<char>)>::empty());
    assert(one.last() == piece);
    let empty = seq![none];
    assert(empty.drop_last() =~= Seq::<Seq<char>>::empty());
    assert(empty.last() == none);
    assert(parameters(empty).len() == 0);
    if forall|i: int| 0 <= i < before.len() ==> (#[trigger] before[i]).0 != key {
        lemma_with_parameter_new(before, key, value);
        assert(before.push((key, value)) =~= before + seq![(key, value)]);
    }
    assert forall|at: int| 0 <= at < before.len() && (#[trigger] before[at]).0 == key implies after
        == before.update(at, (key, before[at].1 + seq![','] + value)) by {
        law_query_keys_are_distinct(query);
        assert forall|i: int| 0 <= i < at implies (#[trigger] before[i]).0 != key by {
            assert(before[at].0 == key);
        }
        lemma_with_parameter_at(before, key, value, at);
        assert(before[at].1.push(',') + value =~= before[at].1 + seq![','] + value);
    }
}

/// A request without a query has no parameters; one with a query has those of its query.
pub proof fn law_no_query_has_no_parameters(query: Seq<char>)
    ensures
        optional_query_parameters(None).len() == 0,
        optional_query_parameters(Some(query)) == query_parameters(query),
{
}

} // verus!
