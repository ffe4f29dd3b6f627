//! What a client is told that asks what would match.

use crate::fault;
use crate::lookup;
use crate::predicate::Predicate;
use crate::responses;
use crate::responses::{ResponseModel, ServedResponse};
use crate::stub;
use crate::stub::StubState;
use crate::text;
use crate::types::StubResponse;
use vstd::prelude::*;
use vstd::utf8::*;

verus! {

/// The request, as it is told back.
#[derive(Debug)]
pub struct DebugRequest {
    pub method: String,
    pub path: String,
    pub query: Option<String>,
    pub headers: Vec<(String, String)>,
    pub body: Option<String>,
}

/// The headers without the one that asked for debugging.
pub open spec fn told_headers(headers: Seq<(Seq<char>, Seq<char>)>) -> Seq<(Seq<char>, Seq<char>)>
    decreases headers.len(),
{
    if headers.len() == 0 {
        Seq::empty()
    } else if text::text_eq(headers.last().0, "x-rift-debug"@, false) {
        told_headers(headers.drop_last())
    } else {
        told_headers(headers.drop_last()).push(headers.last())
    }
}

/// A query, where there is one.
pub open spec fn told_query(query: Seq<char>) -> Option<Seq<char>> {
    if query.len() == 0 {
        None
    } else {
        Some(query)
    }
}

/// The request, as it is told back.
pub fn debug_request(
    method: &str,
    path: &str,
    query: &str,
    headers: &Vec<(String, String)>,
    body: &Option<String>,
) -> (r: DebugRequest)
    ensures
        r.method@ == method@,
        r.path@ == path@,
        text::optional_text(r.query) == told_query(query@),
        lookup::pairs(r.headers@) == told_headers(lookup::pairs(headers@)),
        text::optional_text(r.body) == text::optional_text(*body),
{
    let ghost all = lookup::pairs(headers@);
    let mut kept: Vec<(String, String)> = Vec::new();
    let mut i: usize = 0;
    proof {
        assert(lookup::pairs(kept@) =~= told_headers(all.take(0)));
    }
    while i < headers.len()
        invariant
            i <= headers@.len(),
            all == lookup::pairs(headers@),
            lookup::pairs(kept@) == told_headers(all.take(i as int)),
        decreases headers@.len() - i,
    {
        let h = &headers[i];
        proof {
            assert(all.take(i + 1).drop_last() =~= all.take(i as int));
            assert(all.take(i + 1).last() == all[i as int]);
        }
        if !text::texts_equal(h.0.as_str(), "x-rift-debug", false) {
            let ghost had = kept@;
            kept.push((h.0.as_str().to_owned(), h.1.as_str().to_owned()));
            proof {
                assert(lookup::pairs(kept@) =~= lookup::pairs(had).push(all[i as int]));
            }
        }
        i += 1;
    }
    proof {
        assert(all.take(all.len() as int) =~= all);
        reveal_strlit("");
        assert(""@.len() == 0);
        assert(query@.len() == 0 ==> query@ =~= ""@);
    }
    let query: Option<String> = if text::same_text(query, "") {
        None
    } else {
        Some(query.to_owned())
    };
    DebugRequest {
        method: method.to_owned(),
        path: path.to_owned(),
        query,
        headers: kept,
        body: text::copy_optional(body),
    }
}

/// A stub, as it is told where none matches.
#[derive(Debug)]
pub struct DebugStub<'a> {
    pub index: usize,
    pub id: Option<String>,
    pub predicates: &'a Vec<Predicate>,
}

/// What matching came to, as it is told.
#[derive(Debug)]
pub struct DebugMatch<'a> {
    pub matched: bool,
    /// The stub that matches.
    pub stub_index: Option<usize>,
    pub stub_id: Option<String>,
    /// The predicates of the stub that matches.
    pub predicates: Option<&'a Vec<Predicate>>,
    /// The response whose turn it is in the stub that matches; its turn is not used up.
    pub response_preview: Option<&'a StubResponse>,
    /// Every stub, where none matches.
    pub all_stubs: Option<Vec<DebugStub<'a>>>,
    /// Why no stub matches.
    pub reason: Option<&'static str>,
}

/// Every stub is told in order: its position, its id and its predicates.
pub open spec fn tells_all(told: Seq<DebugStub<'_>>, stubs: Seq<StubState>) -> bool {
    &&& told.len() == stubs.len()
    &&& forall|i: int|
        0 <= i < stubs.len() ==> {
            &&& (#[trigger] told[i]).index == i
            &&& text::optional_text(told[i].id) == text::optional_text(stubs[i].stub.id)
            &&& *told[i].predicates == stubs[i].stub.predicates
        }
}

/// The response whose turn it is in a stub, where it has any.
pub open spec fn response_in_turn(s: StubState) -> Option<StubResponse> {
    let responses = s.stub.responses@;
    if responses.len() == 0 {
        None
    } else {
        Some(responses[stub::current(s.cycler, responses)])
    }
}

/// What is told of the stub that matches.
pub open spec fn tells_match(m: DebugMatch<'_>, at: usize, s: StubState) -> bool {
    &&& m.matched
    &&& m.stub_index == Some(at)
    &&& text::optional_text(m.stub_id) == text::optional_text(s.stub.id)
    &&& m.predicates == Some(&s.stub.predicates)
    &&& (match m.response_preview {
        Some(r) => response_in_turn(s) == Some(*r),
        None => response_in_turn(s) is None,
    })
    &&& m.all_stubs is None
    &&& m.reason is None
}

/// What is told where no stub matches.
pub open spec fn tells_no_match(m: DebugMatch<'_>, stubs: Seq<StubState>) -> bool {
    &&& !m.matched
    &&& m.stub_index is None
    &&& m.stub_id is None
    &&& m.predicates is None
    &&& m.response_preview is None
    &&& m.all_stubs is Some
    &&& tells_all(m.all_stubs->0@, stubs)
    &&& m.reason is Some
    &&& m.reason->0@ == unmatched_reason(stubs.len())
}

/// Why no stub matches.
pub open spec fn unmatched_reason(stubs: nat) -> Seq<char> {
    if stubs == 0 {
        "No stubs configured for this imposter"@
    } else {
        "No stub predicates matched the request"@
    }
}

/// The stubs, as they are told where none matches.
fn debug_stubs(stubs: &Vec<StubState>) -> (r: Vec<DebugStub<'_>>)
    ensures
        tells_all(r@, stubs@),
{
    let mut out: Vec<DebugStub<'_>> = Vec::new();
    let mut i: usize = 0;
    while i < stubs.len()
        invariant
            i <= stubs@.len(),
            tells_all(out@, stubs@.take(i as int)),
        decreases stubs@.len() - i,
    {
        let ghost had = out@;
        let s = &stubs[i];
        out.push(
            DebugStub {
                index: i,
                id: text::copy_optional(&s.stub.id),
                predicates: &s.stub.predicates,
            },
        );
        proof {
            let shorter = stubs@.take(i as int);
            let longer = stubs@.take(i + 1);
            assert forall|k: int| 0 <= k < longer.len() implies {
                &&& (#[trigger] out@[k]).index == k
                &&& text::optional_text(out@[k].id) == text::optional_text(longer[k].stub.id)
                &&& *out@[k].predicates == longer[k].stub.predicates
            } by {
                if k < i {
                    assert(out@[k] == had[k]);
                    assert(longer[k] == shorter[k]);
                }
            }
        }
        i += 1;
    }
    proof {
        assert(stubs@.take(i as int) =~= stubs@);
    }
    out
}

/// What matching came to, as it is told: the stub that matches with its predicates and its next
/// response, or every stub and why none matches.
pub fn debug_match(found: Option<usize>, stubs: &Vec<StubState>) -> (r: DebugMatch<'_>)
    requires
        found is Some ==> found->0 < stubs@.len(),
    ensures
        (match found {
            Some(at) => tells_match(r, at, stubs@[at as int]),
            None => tells_no_match(r, stubs@),
        }),
{
    match found {
        Some(at) => DebugMatch {
            matched: true,
            stub_index: Some(at),
            stub_id: text::copy_optional(&stubs[at].stub.id),
            predicates: Some(&stubs[at].stub.predicates),
            response_preview: stubs[at].peek_response(),
            all_stubs: None,
            reason: None,
        },
        None => DebugMatch {
            matched: false,
            stub_index: None,
            stub_id: None,
            predicates: None,
            response_preview: None,
            all_stubs: Some(debug_stubs(stubs)),
            reason: Some(
                if stubs.len() == 0 {
                    "No stubs configured for this imposter"
                } else {
                    "No stub predicates matched the request"
                },
            ),
        },
    }
}

/// The headers of what is told.
pub open spec fn told_with() -> Seq<(Seq<char>, Seq<char>)> {
    seq![("Content-Type"@, "application/json"@), ("X-Rift-Debug-Response"@, "true"@)]
}

/// What is told, or that it could not be put into words: an error, never a success that carries
/// one.
pub open spec fn told(payload: Option<Seq<char>>) -> ResponseModel {
    match payload {
        Some(p) => responses::plain(200, told_with(), encode_utf8(p)),
        None => responses::plain(
            500,
            told_with(),
            responses::status_bytes(500, "Failed to serialize debug response"@),
        ),
    }
}

/// What is told; no payload where it could not be serialised.
pub fn debug_response(payload: Option<&str>) -> (r: ServedResponse)
    ensures
        r@ == told(text::optional_str(payload)),
{
    let headers: Vec<(String, String)> = vec![
        ("Content-Type".to_owned(), "application/json".to_owned()),
        ("X-Rift-Debug-Response".to_owned(), "true".to_owned()),
    ];
    proof {
        assert(lookup::pairs(headers@) =~= told_with());
    }
    match payload {
        Some(p) => ServedResponse { status: 200, headers, body: fault::bytes_of(p), fault: None },
        None => ServedResponse {
            status: 500,
            headers,
            body: responses::error_body(500, "Failed to serialize debug response"),
            fault: None,
        },
    }
}

/// The request is told back with every header but the one that asked, in whatever case, and in
/// order: what is told of two lists together is what is told of each.
pub proof fn law_headers_are_told_but_the_one_that_asked(
    a: Seq<(Seq<char>, Seq<char>)>,
    b: Seq<(Seq<char>, Seq<char>)>,
    header: (Seq<char>, Seq<char>),
)
    ensures
        told_headers(a + b) == told_headers(a) + told_headers(b),
        told_headers(b).contains(header) <==> b.contains(header) && !text::text_eq(
            header.0,
            "x-rift-debug"@,
            false,
        ),
    decreases b.len(),
{
    if b.len() == 0 {
        assert(a + b =~= a);
        assert(told_headers(a) + told_headers(b) =~= told_headers(a));
        assert(!b.contains(header));
    } else {
        let rest = b.drop_last();
        law_headers_are_told_but_the_one_that_asked(a, rest, header);
        assert((a + b).drop_last() =~= a + rest);
        assert((a + b).last() == b.last());
        assert(told_headers(a + b) =~= told_headers(a) + told_headers(b));
        let last = b.last();
        if rest.contains(header) {
            let i = choose|i: int| 0 <= i < rest.len() && rest[i] == header;
            assert(b[i] == header);
        }
        if b.contains(header) && header != last {
            let i = choose|i: int| 0 <= i < b.len() && b[i] == header;
            assert(rest[i] == header);
        }
        if header == last {
            assert(b[b.len() - 1] == header);
        }
        if !text::text_eq(last.0, "x-rift-debug"@, false) {
            let all = told_headers(b);
            let some = told_headers(rest);
            assert(all[some.len() as int] == last);
            if some.contains(header) {
                let i = choose|i: int| 0 <= i < some.len() && some[i] == header;
                assert(all[i] == header);
            }
            if all.contains(header) && header != last {
                let i = choose|i: int| 0 <= i < all.len() && all[i] == header;
                assert(some[i] == header);
            }
        }
    }
}

/// An empty query is told as none, and any other as it is.
pub proof fn law_queries_are_told_as_they_are(query: Seq<char>)
    ensures
        query.len() == 0 ==> told_query(query) is None,
        query.len() > 0 ==> told_query(query) == Some(query),
{
}

/// What would match is told with its place, its id, its predicates and the response whose turn it
/// is, without taking that turn; what would not is told with a reason and every stub in order.
pub proof fn law_what_would_match_is_told(
    m: DebugMatch<'_>,
    at: usize,
    s: StubState,
    stubs: Seq<StubState>,
    i: int,
)
    ensures
        tells_match(m, at, s) ==> {
            &&& m.matched && m.stub_index == Some(at) && m.reason is None && m.all_stubs is None
            &&& m.stub_id is Some <==> s.stub.id is Some
            &&& s.stub.id is Some ==> m.stub_id->0@ == s.stub.id->0@
            &&& m.predicates is Some && *m.predicates->0 == s.stub.predicates
            &&& s.stub.responses@.len() == 0 ==> m.response_preview is None
            &&& s.cycler.index < s.stub.responses@.len() ==> m.response_preview is Some
                && *m.response_preview->0 == s.stub.responses@[s.cycler.index as int]
        },
        tells_no_match(m, stubs) ==> {
            &&& !m.matched && m.stub_index is None && m.response_preview is None
            &&& m.reason is Some && (stubs.len() == 0 ==> m.reason->0@
                == "No stubs configured for this imposter"@) && (stubs.len() > 0 ==> m.reason->0@
                == "No stub predicates matched the request"@)
            &&& m.all_stubs is Some && m.all_stubs->0@.len() == stubs.len()
            &&& 0 <= i < stubs.len() ==> m.all_stubs->0@[i].index == i && *m.all_stubs->0@[i].predicates
                == stubs[i].stub.predicates
        },
{
    if s.cycler.index < s.stub.responses@.len() {
        let n = s.stub.responses@.len() as int;
        let k = s.cycler.index as int;
        assert(k % n == k) by (nonlinear_arith)
            requires
                0 <= k < n,
        ;
    }
}

/// What is told is a `200` with the text that was made of it; where none could be made it is a
/// `500`, and never a success. Both are JSON, and say what they are.
pub proof fn law_tellings_are_told_or_fail(payload: Seq<char>)
    ensures
        told(Some(payload)).status == 200,
        told(Some(payload)).body == encode_utf8(payload),
        told(None).status == 500,
        told(None).body == responses::status_bytes(500, "Failed to serialize debug response"@),
        told(Some(payload)).fault is None && told(None).fault is None,
        told(Some(payload)).headers == told(None).headers,
        told(None).headers == seq![
            ("Content-Type"@, "application/json"@),
            ("X-Rift-Debug-Response"@, "true"@),
        ],
{
}

} // verus!
