//! Request headers as predicates, forwarding and recording see them.

use crate::record;
use crate::text;
use vstd::prelude::*;
use vstd::utf8::*;

verus! {

/// Headers by name, each with its values in the order they were sent.
pub type HeaderModel = Seq<(Seq<char>, Seq<Seq<char>>)>;

/// Collected headers, and the names of the lines that were dropped.
#[derive(Debug)]
pub struct CollectedHeaders {
    pub headers: Vec<(String, Vec<String>)>,
    /// One name per dropped line.
    pub dropped: Vec<String>,
}

/// One more line: its value joins those of its name.
pub open spec fn with_line(h: HeaderModel, name: Seq<char>, value: Seq<char>) -> HeaderModel
    decreases h.len(),
{
    if h.len() == 0 {
        seq![(name, seq![value])]
    } else if h[0].0 == name {
        seq![(name, h[0].1.push(value))] + h.drop_first()
    } else {
        seq![h[0]] + with_line(h.drop_first(), name, value)
    }
}

/// The headers that lines make: every value of a name in the order sent. A value that is not UTF-8
/// is left out, and a name with no other value with it.
pub open spec fn gathered(lines: Seq<(Seq<char>, Seq<u8>)>) -> HeaderModel
    decreases lines.len(),
{
    if lines.len() == 0 {
        Seq::empty()
    } else {
        let (name, value) = lines.last();
        if valid_utf8(value) {
            with_line(gathered(lines.drop_last()), name, decode_utf8(value))
        } else {
            gathered(lines.drop_last())
        }
    }
}

/// The names of the lines whose value is not UTF-8.
pub open spec fn unreadable(lines: Seq<(Seq<char>, Seq<u8>)>) -> Seq<Seq<char>>
    decreases lines.len(),
{
    if lines.len() == 0 {
        Seq::empty()
    } else {
        let (name, value) = lines.last();
        if valid_utf8(value) {
            unreadable(lines.drop_last())
        } else {
            unreadable(lines.drop_last()).push(name)
        }
    }
}

/// The names are what a naming gives the lines' wire names.
pub open spec fn named_by<N: Fn(&str) -> String>(
    naming: N,
    lines: Seq<(String, Vec<u8>)>,
    named: Seq<(Seq<char>, Seq<u8>)>,
) -> bool {
    &&& named.len() == lines.len()
    &&& forall|i: int|
        0 <= i < lines.len() ==> (#[trigger] named[i]).1 == lines[i].1@ && gives(
            naming,
            lines[i].0@,
            named[i].0,
        )
}

/// A naming gives a wire name this name.
pub open spec fn gives<N: Fn(&str) -> String>(naming: N, wire: Seq<char>, name: Seq<char>) -> bool {
    exists|s: &str, r: String| s@ == wire && r@ == name && #[trigger] call_ensures(naming, (s,), r)
}

/// Collected headers are those of the lines under a naming.
pub open spec fn collected<N: Fn(&str) -> String>(
    naming: N,
    lines: Seq<(String, Vec<u8>)>,
    c: CollectedHeaders,
) -> bool {
    exists|named: Seq<(Seq<char>, Seq<u8>)>| #[trigger]
        named_by(naming, lines, named) && record::header_lines(c.headers@) == gathered(named)
            && record::texts(c.dropped@) == unreadable(named)
}

proof fn lemma_line_at(h: HeaderModel, name: Seq<char>, value: Seq<char>, at: int)
    requires
        0 <= at < h.len(),
        h[at].0 == name,
        forall|i: int| 0 <= i < at ==> (#[trigger] h[i]).0 != name,
    ensures
        with_line(h, name, value) == h.update(at, (name, h[at].1.push(value))),
    decreases h.len(),
{
    if at > 0 {
        assert(h[0].0 != name);
        let rest = h.drop_first();
        assert forall|i: int| 0 <= i < at - 1 implies (#[trigger] rest[i]).0 != name by {
            assert(rest[i] == h[i + 1]);
        }
        lemma_line_at(rest, name, value, at - 1);
    }
    assert(with_line(h, name, value) =~= h.update(at, (name, h[at].1.push(value))));
}

proof fn lemma_line_new(h: HeaderModel, name: Seq<char>, value: Seq<char>)
    requires
        forall|i: int| 0 <= i < h.len() ==> (#[trigger] h[i]).0 != name,
    ensures
        with_line(h, name, value) == h.push((name, seq![value])),
    decreases h.len(),
{
    if h.len() > 0 {
        let rest = h.drop_first();
        assert(h[0].0 != name);
        assert forall|i: int| 0 <= i < rest.len() implies (#[trigger] rest[i]).0 != name by {
            assert(rest[i] == h[i + 1]);
        }
        lemma_line_new(rest, name, value);
    }
    assert(with_line(h, name, value) =~= h.push((name, seq![value])));
}

/// Adds a line.
fn add_line(headers: &mut Vec<(String, Vec<String>)>, name: String, value: String)
    ensures
        record::header_lines(final(headers)@) == with_line(
            record::header_lines(old(headers)@),
            name@,
            value@,
        ),
{
    let ghost before = record::header_lines(headers@);
    let mut i: usize = 0;
    while i < headers.len()
        invariant
            i <= headers@.len(),
            before == record::header_lines(headers@),
            before == record::header_lines(old(headers)@),
            forall|k: int| 0 <= k < i ==> (#[trigger] before[k]).0 != name@,
        decreases headers@.len() - i,
    {
        if text::same_text(headers[i].0.as_str(), name.as_str()) {
            let (key, mut values) = headers.remove(i);
            let ghost had = values@;
            values.push(value);
            proof {
                assert(record::texts(values@) =~= record::texts(had).push(value@));
            }
            headers.insert(i, (key, values));
            proof {
                lemma_line_at(before, name@, value@, i as int);
                assert(record::header_lines(headers@) =~= before.update(
                    i as int,
                    (name@, before[i as int].1.push(value@)),
                ));
            }
            return ;
        }
        i += 1;
    }
    let mut values: Vec<String> = Vec::new();
    let ghost v = value@;
    let ghost n = name@;
    values.push(value);
    proof {
        lemma_line_new(before, n, v);
        assert(record::texts(values@) =~= seq![v]);
    }
    headers.push((name, values));
    proof {
        assert(record::header_lines(headers@) =~= before.push((n, seq![v])));
    }
}

/// Collects the header lines of a request under the names that `naming` gives them. Every value of
/// a name is kept, in the order sent; a value that is not UTF-8 is dropped, and its name listed.
pub fn collect_request_headers<N: Fn(&str) -> String>(
    lines: &Vec<(String, Vec<u8>)>,
    naming: N,
) -> (r: CollectedHeaders)
    requires
        forall|s: &str| #[trigger] call_requires(naming, (s,)),
    ensures
        collected(naming, lines@, r),
{
    let mut headers: Vec<(String, Vec<String>)> = Vec::new();
    let mut dropped: Vec<String> = Vec::new();
    let ghost mut named: Seq<(Seq<char>, Seq<u8>)> = Seq::empty();
    proof {
        assert(record::header_lines(headers@) =~= gathered(named));
        assert(record::texts(dropped@) =~= unreadable(named));
    }
    let mut i: usize = 0;
    while i < lines.len()
        invariant
            forall|s: &str| #[trigger] call_requires(naming, (s,)),
            i <= lines@.len(),
            named.len() == i,
            forall|k: int|
                0 <= k < i ==> (#[trigger] named[k]).1 == lines@[k].1@ && gives(
                    naming,
                    lines@[k].0@,
                    named[k].0,
                ),
            record::header_lines(headers@) == gathered(named),
            record::texts(dropped@) == unreadable(named),
        decreases lines@.len() - i,
    {
        let line = &lines[i];
        let wire: &str = line.0.as_str();
        let name: String = naming(wire);
        let bytes: Vec<u8> = copy_bytes(&line.1);
        let ghost before = named;
        proof {
            assert(gives(naming, lines@[i as int].0@, name@));
            named = named.push((name@, bytes@));
            assert(named.drop_last() =~= before);
        }
        match String::from_utf8(bytes) {
            Ok(value) => {
                add_line(&mut headers, name, value);
            },
            Err(_) => {
                let ghost had = dropped@;
                let ghost n = name@;
                dropped.push(name);
                proof {
                    assert(record::texts(dropped@) =~= record::texts(had).push(n));
                }
            },
        }
        i += 1;
    }
    proof {
        assert(named_by(naming, lines@, named));
    }
    CollectedHeaders { headers, dropped }
}

/// A copy of bytes.
pub fn copy_bytes(v: &Vec<u8>) -> (r: Vec<u8>)
    ensures
        r@ == v@,
{
    let mut out: Vec<u8> = Vec::new();
    let mut i: usize = 0;
    while i < v.len()
        invariant
            i <= v@.len(),
            out@ == v@.take(i as int),
        decreases v@.len() - i,
    {
        out.push(v[i]);
        i += 1;
        proof {
            assert(out@ =~= v@.take(i as int));
        }
    }
    proof {
        assert(v@.take(v@.len() as int) =~= v@);
    }
    out
}

/// A header is collected with at least one value: a name is never there with none.
pub proof fn law_collected_names_have_values(lines: Seq<(Seq<char>, Seq<u8>)>)
    ensures
        forall|i: int| 0 <= i < gathered(lines).len() ==> (#[trigger] gathered(lines)[i]).1.len() > 0,
    decreases lines.len(),
{
    if lines.len() > 0 {
        law_collected_names_have_values(lines.drop_last());
        let (name, value) = lines.last();
        if valid_utf8(value) {
            lemma_values_stay(gathered(lines.drop_last()), name, decode_utf8(value));
        }
    }
}

proof fn lemma_values_stay(h: HeaderModel, name: Seq<char>, value: Seq<char>)
    requires
        forall|i: int| 0 <= i < h.len() ==> (#[trigger] h[i]).1.len() > 0,
    ensures
        forall|i: int|
            0 <= i < with_line(h, name, value).len() ==> (#[trigger] with_line(
                h,
                name,
                value,
            )[i]).1.len() > 0,
    decreases h.len(),
{
    let rest = h.drop_first();
    if h.len() > 0 {
        assert forall|i: int| 0 <= i < rest.len() implies (#[trigger] rest[i]).1.len() > 0 by {
            assert(rest[i] == h[i + 1]);
        }
        lemma_values_stay(rest, name, value);
        let got = with_line(h, name, value);
        assert forall|i: int| 0 <= i < got.len() implies (#[trigger] got[i]).1.len() > 0 by {
            assert(h[0].1.len() > 0);
            if i > 0 {
                if h[0].0 == name {
                    assert(got[i] == rest[i - 1]);
                } else {
                    assert(got[i] == with_line(rest, name, value)[i - 1]);
                }
            }
        }
    }
}

proof fn lemma_names_stand_once(lines: Seq<(Seq<char>, Seq<u8>)>)
    ensures
        forall|i: int, j: int|
            0 <= i < j < gathered(lines).len() ==> #[trigger] gathered(lines)[i].0
                != #[trigger] gathered(lines)[j].0,
    decreases lines.len(),
{
    if lines.len() > 0 {
        lemma_names_stand_once(lines.drop_last());
        let h = gathered(lines.drop_last());
        let (name, value) = lines.last();
        if valid_utf8(value) {
            let text = decode_utf8(value);
            if exists|at: int| 0 <= at < h.len() && (#[trigger] h[at]).0 == name {
                let at = choose|at: int| 0 <= at < h.len() && (#[trigger] h[at]).0 == name;
                assert forall|i: int| 0 <= i < at implies (#[trigger] h[i]).0 != name by {
                    assert(h[at].0 == name);
                }
                lemma_line_at(h, name, text, at);
            } else {
                lemma_line_new(h, name, text);
            }
        }
    }
}

/// One more line adds its value behind those of its name, where the name is there; else it adds the
/// name with that one value at the end. A line whose value is not UTF-8 adds nothing, and its name
/// is reported. Either way every other line stays.
pub proof fn law_every_line_is_gathered_or_reported(
    lines: Seq<(Seq<char>, Seq<u8>)>,
    name: Seq<char>,
    value: Seq<u8>,
)
    ensures
        ({
            let before = gathered(lines);
            let after = gathered(lines.push((name, value)));
            let left_out = unreadable(lines.push((name, value)));
            &&& gathered(Seq::empty()).len() == 0 && unreadable(Seq::empty()).len() == 0
            &&& !valid_utf8(value) ==> after == before && left_out == unreadable(lines) + seq![name]
            &&& valid_utf8(value) ==> left_out == unreadable(lines)
            &&& valid_utf8(value) && (forall|i: int|
                0 <= i < before.len() ==> (#[trigger] before[i]).0 != name) ==> after == before
                + seq![(name, seq![decode_utf8(value)])]
            &&& valid_utf8(value) ==> forall|at: int|
                0 <= at < before.len() && (#[trigger] before[at]).0 == name ==> after
                    == before.update(at, (name, before[at].1 + seq![decode_utf8(value)]))
        }),
{
    let more = lines.push((name, value));
    assert(more.drop_last() =~= lines);
    assert(more.last() == (name, value));
    let before = gathered(lines);
    assert(unreadable(lines).push(name) =~= unreadable(lines) + seq![name]);
    if valid_utf8(value) {
        let text = decode_utf8(value);
        let after = gathered(more);
        if forall|i: int| 0 <= i < before.len() ==> (#[trigger] before[i]).0 != name {
            lemma_line_new(before, name, text);
            assert(before.push((name, seq![text])) =~= before + seq![(name, seq![text])]);
        }
        lemma_names_stand_once(lines);
        assert forall|at: int|
            0 <= at < before.len() && (#[trigger] before[at]).0 == name implies after
            == before.update(at, (name, before[at].1 + seq![text])) by {
            assert forall|i: int| 0 <= i < at implies (#[trigger] before[i]).0 != name by {
                assert(before[at].0 == name);
            }
            lemma_line_at(before, name, text, at);
            assert(before[at].1.push(text) =~= before[at].1 + seq![text]);
        }
    }
}

proof fn lemma_gathered_has(lines: Seq<(Seq<char>, Seq<u8>)>, i: int) -> (j: int)
    requires
        0 <= i < lines.len(),
        valid_utf8(lines[i].1),
    ensures
        0 <= j < gathered(lines).len(),
        gathered(lines)[j].0 == lines[i].0,
        gathered(lines)[j].1.contains(decode_utf8(lines[i].1)),
    decreases lines.len(),
{
    let rest = lines.drop_last();
    let h = gathered(rest);
    let (name, value) = lines.last();
    assert(rest.push((name, value)) =~= lines);
    law_every_line_is_gathered_or_reported(rest, name, value);
    let text = decode_utf8(value);
    if i < lines.len() - 1 {
        let j = lemma_gathered_has(rest, i);
        let wanted = decode_utf8(lines[i].1);
        if valid_utf8(value) {
            if exists|at: int| 0 <= at < h.len() && (#[trigger] h[at]).0 == name {
                let at = choose|at: int| 0 <= at < h.len() && (#[trigger] h[at]).0 == name;
                if j == at {
                    let k = choose|k: int| 0 <= k < h[j].1.len() && h[j].1[k] == wanted;
                    assert((h[at].1 + seq![text])[k] == wanted);
                }
            } else {
                assert(gathered(lines)[j] == h[j]);
            }
        }
        j
    } else {
        if exists|at: int| 0 <= at < h.len() && (#[trigger] h[at]).0 == name {
            let at = choose|at: int| 0 <= at < h.len() && (#[trigger] h[at]).0 == name;
            assert((h[at].1 + seq![text])[h[at].1.len() as int] == text);
            at
        } else {
            assert(seq![text][0] == text);
            h.len() as int
        }
    }
}

proof fn lemma_unreadable_has(lines: Seq<(Seq<char>, Seq<u8>)>, i: int)
    requires
        0 <= i < lines.len(),
        !valid_utf8(lines[i].1),
    ensures
        unreadable(lines).contains(lines[i].0),
    decreases lines.len(),
{
    let rest = lines.drop_last();
    let some = unreadable(rest);
    let all = unreadable(lines);
    if i < lines.len() - 1 {
        lemma_unreadable_has(rest, i);
        let k = choose|k: int| 0 <= k < some.len() && some[k] == lines[i].0;
        assert(all[k] == lines[i].0);
    } else {
        assert(all[some.len() as int] == lines[i].0);
    }
}

/// Every line that came in is collected under the name that the naming gives it, with its value
/// among those of the name; or, where its value is no text, that name is reported.
pub proof fn law_every_line_is_collected_or_reported<N: Fn(&str) -> String>(
    naming: N,
    lines: Seq<(String, Vec<u8>)>,
    c: CollectedHeaders,
    i: int,
)
    requires
        collected(naming, lines, c),
        0 <= i < lines.len(),
    ensures
        valid_utf8(lines[i].1@) ==> exists|j: int|
            0 <= j < c.headers@.len() && gives(
                naming,
                lines[i].0@,
                (#[trigger] record::header_lines(c.headers@)[j]).0,
            ) && record::header_lines(c.headers@)[j].1.contains(decode_utf8(lines[i].1@)),
        !valid_utf8(lines[i].1@) ==> exists|k: int|
            0 <= k < c.dropped@.len() && gives(
                naming,
                lines[i].0@,
                #[trigger] record::texts(c.dropped@)[k],
            ),
{
    let named = choose|named: Seq<(Seq<char>, Seq<u8>)>| #[trigger]
        named_by(naming, lines, named) && record::header_lines(c.headers@) == gathered(named)
            && record::texts(c.dropped@) == unreadable(named);
    assert(named[i].1 == lines[i].1@);
    if valid_utf8(lines[i].1@) {
        let j = lemma_gathered_has(named, i);
        assert(record::header_lines(c.headers@)[j].0 == named[i].0);
        assert(record::header_lines(c.headers@).len() == c.headers@.len());
    } else {
        lemma_unreadable_has(named, i);
        let left = unreadable(named);
        let k = choose|k: int| 0 <= k < left.len() && left[k] == named[i].0;
        assert(record::texts(c.dropped@)[k] == named[i].0);
        assert(record::texts(c.dropped@).len() == c.dropped@.len());
    }
}

} // verus!
