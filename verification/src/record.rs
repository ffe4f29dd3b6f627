//! Recorded requests.

use crate::lookup;
use crate::text;
use crate::types::ResponseMode;
use vstd::prelude::*;

verus! {

/// What matching a recorded request came to.
#[derive(Debug)]
pub struct MatchOutcome {
    pub matched: bool,
    pub stub_index: Option<usize>,
    pub stub_id: Option<String>,
    /// The stubs that were tried and did not match.
    pub tried: Vec<usize>,
    /// How many more were tried than are listed.
    pub tried_omitted: usize,
}

/// A matching outcome as contracts see it.
pub struct OutcomeModel {
    pub matched: bool,
    pub stub_index: Option<usize>,
    pub stub_id: Option<Seq<char>>,
    pub tried: Seq<usize>,
    pub tried_omitted: usize,
}

/// A request as it was recorded.
#[derive(Debug)]
pub struct RecordedRequest {
    /// Whether the body is text or base64 of raw bytes.
    pub mode: ResponseMode,
    pub request_from: String,
    pub method: String,
    pub path: String,
    pub query: Vec<(String, String)>,
    /// One entry per header name, one value per header line.
    pub headers: Vec<(String, Vec<String>)>,
    pub body: Option<String>,
    pub timestamp: String,
    /// What matching came to, once it is known.
    pub match_outcome: Option<MatchOutcome>,
    /// The status it was answered with, once it is known.
    pub status: Option<u16>,
    /// How long answering took, once it is known.
    pub latency_ms: Option<u64>,
    /// The node that recorded it.
    pub node: Option<String>,
}

/// A recorded request as contracts see it.
pub struct RecordModel {
    pub mode: ResponseMode,
    pub request_from: Seq<char>,
    pub method: Seq<char>,
    pub path: Seq<char>,
    pub query: Seq<(Seq<char>, Seq<char>)>,
    pub headers: Seq<(Seq<char>, Seq<Seq<char>>)>,
    pub body: Option<Seq<char>>,
    pub timestamp: Seq<char>,
    pub match_outcome: Option<OutcomeModel>,
    pub status: Option<u16>,
    pub latency_ms: Option<u64>,
    pub node: Option<Seq<char>>,
}

/// The texts of a list.
pub open spec fn texts(list: Seq<String>) -> Seq<Seq<char>> {
    Seq::new(list.len(), |i: int| list[i]@)
}

/// Headers with their values, as contracts see them.
pub open spec fn header_lines(list: Seq<(String, Vec<String>)>) -> Seq<(Seq<char>, Seq<Seq<char>>)> {
    Seq::new(list.len(), |i: int| (list[i].0@, texts(list[i].1@)))
}

impl MatchOutcome {
    /// The outcome as contracts see it.
    pub open spec fn view(&self) -> OutcomeModel {
        OutcomeModel {
            matched: self.matched,
            stub_index: self.stub_index,
            stub_id: text::optional_text(self.stub_id),
            tried: self.tried@,
            tried_omitted: self.tried_omitted,
        }
    }

    /// A copy.
    pub fn copy(&self) -> (r: Self)
        ensures
            r@ == self@,
    {
        let mut tried: Vec<usize> = Vec::new();
        let mut i: usize = 0;
        while i < self.tried.len()
            invariant
                i <= self.tried@.len(),
                tried@ == self.tried@.take(i as int),
            decreases self.tried@.len() - i,
        {
            tried.push(self.tried[i]);
            i += 1;
            proof {
                assert(tried@ =~= self.tried@.take(i as int));
            }
        }
        proof {
            assert(self.tried@.take(self.tried@.len() as int) =~= self.tried@);
        }
        MatchOutcome {
            matched: self.matched,
            stub_index: self.stub_index,
            stub_id: text::copy_optional(&self.stub_id),
            tried,
            tried_omitted: self.tried_omitted,
        }
    }
}

/// An optional outcome as contracts see it.
pub open spec fn optional_outcome(o: Option<MatchOutcome>) -> Option<OutcomeModel> {
    match o {
        Some(m) => Some(m@),
        None => None,
    }
}

/// A copy of a list of texts.
pub fn copy_texts(list: &Vec<String>) -> (r: Vec<String>)
    ensures
        texts(r@) == texts(list@),
{
    let mut out: Vec<String> = Vec::new();
    let mut i: usize = 0;
    while i < list.len()
        invariant
            i <= list@.len(),
            out@.len() == i,
            forall|k: int| 0 <= k < i ==> (#[trigger] out@[k])@ == list@[k]@,
        decreases list@.len() - i,
    {
        out.push(list[i].as_str().to_owned());
        i += 1;
    }
    proof {
        assert(texts(out@) =~= texts(list@));
    }
    out
}

/// Texts in one, with a separator between them.
pub open spec fn joined(values: Seq<Seq<char>>, separator: Seq<char>) -> Seq<char>
    decreases values.len(),
{
    if values.len() == 0 {
        Seq::empty()
    } else if values.len() == 1 {
        values[0]
    } else {
        joined(values.drop_last(), separator) + separator + values.last()
    }
}

/// Texts in one, with a separator between them.
pub fn join_texts(values: &Vec<String>, separator: &str) -> (r: String)
    ensures
        r@ == joined(texts(values@), separator@),
{
    let ghost all = texts(values@);
    let mut out: String = String::new();
    let mut i: usize = 0;
    proof {
        assert(out@ =~= joined(all.take(0), separator@));
    }
    while i < values.len()
        invariant
            i <= values@.len(),
            all == texts(values@),
            out@ == joined(all.take(i as int), separator@),
        decreases values@.len() - i,
    {
        proof {
            assert(all.take(i + 1).drop_last() =~= all.take(i as int));
            assert(all.take(i + 1).last() == values@[i as int]@);
        }
        let ghost had = out@;
        if i > 0 {
            out.append(separator);
        }
        out.append(values[i].as_str());
        proof {
            if i > 0 {
                assert(out@ =~= had + separator@ + values@[i as int]@);
            } else {
                assert(out@ =~= values@[0]@);
            }
        }
        i += 1;
    }
    proof {
        assert(all.take(all.len() as int) =~= all);
    }
    out
}

/// A copy of headers.
pub fn copy_headers(list: &Vec<(String, Vec<String>)>) -> (r: Vec<(String, Vec<String>)>)
    ensures
        header_lines(r@) == header_lines(list@),
{
    let mut out: Vec<(String, Vec<String>)> = Vec::new();
    let mut i: usize = 0;
    while i < list.len()
        invariant
            i <= list@.len(),
            out@.len() == i,
            forall|k: int|
                0 <= k < i ==> (#[trigger] out@[k]).0@ == list@[k].0@ && texts(out@[k].1@) == texts(
                    list@[k].1@,
                ),
        decreases list@.len() - i,
    {
        let e = &list[i];
        out.push((e.0.as_str().to_owned(), copy_texts(&e.1)));
        i += 1;
    }
    proof {
        assert(header_lines(out@) =~= header_lines(list@));
    }
    out
}

impl RecordedRequest {
    /// The request as contracts see it.
    pub open spec fn view(&self) -> RecordModel {
        RecordModel {
            mode: self.mode,
            request_from: self.request_from@,
            method: self.method@,
            path: self.path@,
            query: lookup::pairs(self.query@),
            headers: header_lines(self.headers@),
            body: text::optional_text(self.body),
            timestamp: self.timestamp@,
            match_outcome: optional_outcome(self.match_outcome),
            status: self.status,
            latency_ms: self.latency_ms,
            node: text::optional_text(self.node),
        }
    }

    /// A copy.
    pub fn copy(&self) -> (r: Self)
        ensures
            r@ == self@,
    {
        let match_outcome: Option<MatchOutcome> = match &self.match_outcome {
            Some(o) => Some(o.copy()),
            None => None,
        };
        RecordedRequest {
            mode: self.mode,
            request_from: self.request_from.clone(),
            method: self.method.clone(),
            path: self.path.clone(),
            query: lookup::copy_list(&self.query),
            headers: copy_headers(&self.headers),
            body: text::copy_optional(&self.body),
            timestamp: self.timestamp.clone(),
            match_outcome,
            status: self.status,
            latency_ms: self.latency_ms,
            node: text::copy_optional(&self.node),
        }
    }
}

/// Joining puts the separator between texts and nowhere else: one text is joined as it is, and two
/// runs of texts are joined with the separator between what each of them is joined to.
pub proof fn law_texts_are_joined_in_order(
    one: Seq<char>,
    before: Seq<Seq<char>>,
    after: Seq<Seq<char>>,
    separator: Seq<char>,
)
    requires
        before.len() > 0,
        after.len() > 0,
    ensures
        joined(Seq::empty(), separator).len() == 0,
        joined(seq![one], separator) == one,
        joined(before + after, separator) == joined(before, separator) + separator + joined(
            after,
            separator,
        ),
    decreases after.len(),
{
    let all = before + after;
    assert(all.drop_last() =~= before + after.drop_last());
    assert(all.last() == after.last());
    if after.len() == 1 {
        assert(before + after.drop_last() =~= before);
        assert(joined(all, separator) =~= joined(before, separator) + separator + joined(
            after,
            separator,
        ));
    } else {
        law_texts_are_joined_in_order(one, before, after.drop_last(), separator);
        assert(joined(all, separator) =~= joined(before, separator) + separator + joined(
            after,
            separator,
        ));
    }
}

/// A recorded request is seen as it is, field by field.
pub proof fn law_records_are_seen_as_they_are(r: RecordedRequest, i: int, k: int)
    ensures
        r@.mode == r.mode,
        r@.request_from == r.request_from@,
        r@.method == r.method@,
        r@.path == r.path@,
        r@.timestamp == r.timestamp@,
        r@.status == r.status,
        r@.latency_ms == r.latency_ms,
        r.body matches Some(b) ==> r@.body == Some(b@),
        r.body is None ==> r@.body is None,
        r.node matches Some(n) ==> r@.node == Some(n@),
        r.node is None ==> r@.node is None,
        r@.match_outcome is Some <==> r.match_outcome is Some,
        r.match_outcome matches Some(m) ==> r@.match_outcome->0.matched == m.matched
            && r@.match_outcome->0.stub_index == m.stub_index && r@.match_outcome->0.tried
            == m.tried@ && r@.match_outcome->0.tried_omitted == m.tried_omitted,
        r@.query.len() == r.query@.len(),
        0 <= i < r.query@.len() ==> r@.query[i] == (r.query@[i].0@, r.query@[i].1@),
        r@.headers.len() == r.headers@.len(),
        0 <= i < r.headers@.len() ==> r@.headers[i].0 == r.headers@[i].0@ && r@.headers[i].1.len()
            == r.headers@[i].1@.len(),
        0 <= i < r.headers@.len() && 0 <= k < r.headers@[i].1@.len() ==> r@.headers[i].1[k]
            == r.headers@[i].1@[k]@,
{
}

} // verus!
