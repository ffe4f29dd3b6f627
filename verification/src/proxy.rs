//! Proxying: what is sent upstream, what is recorded of the answer, and where it is put.

use crate::lookup;
use crate::predicate;
use crate::predicate::Predicate;
use crate::stub::StubState;
use crate::text;
use crate::types::{PathRewrite, Stub, StubResponse};
use vstd::prelude::*;

verus! {

/// The largest upstream body that is taken.
pub const MAX_PROXY_RESPONSE_BODY_SIZE: usize = 10485760;

/// How an imposter records what it proxies.
#[derive(Clone, Copy, Debug, PartialEq, Eq, Structural)]
pub enum ProxyMode {
    ProxyOnce,
    ProxyAlways,
    ProxyTransparent,
}

/// The mode a configured name stands for, whatever its case; without recording for any other.
pub open spec fn mode_named(name: Seq<char>) -> ProxyMode {
    if text::text_eq(name, "proxyonce"@, false) {
        ProxyMode::ProxyOnce
    } else if text::text_eq(name, "proxyalways"@, false) {
        ProxyMode::ProxyAlways
    } else {
        ProxyMode::ProxyTransparent
    }
}

/// The mode of the first proxy among responses.
pub open spec fn first_mode(responses: Seq<StubResponse>) -> Option<ProxyMode>
    decreases responses.len(),
{
    if responses.len() == 0 {
        None
    } else {
        match responses[0] {
            StubResponse::Proxy { proxy } => Some(mode_named(proxy.mode@)),
            _ => first_mode(responses.drop_first()),
        }
    }
}

/// The mode of the first proxy among stubs; without recording where there is none.
pub open spec fn proxy_mode_of(stubs: Seq<Stub>) -> ProxyMode
    decreases stubs.len(),
{
    if stubs.len() == 0 {
        ProxyMode::ProxyTransparent
    } else {
        match first_mode(stubs[0].responses@) {
            Some(m) => m,
            None => proxy_mode_of(stubs.drop_first()),
        }
    }
}

fn mode_of(name: &str) -> (r: ProxyMode)
    ensures
        r == mode_named(name@),
{
    if text::texts_equal(name, "proxyonce", false) {
        ProxyMode::ProxyOnce
    } else if text::texts_equal(name, "proxyalways", false) {
        ProxyMode::ProxyAlways
    } else {
        ProxyMode::ProxyTransparent
    }
}

/// The mode of the first proxy among stubs.
pub fn extract_proxy_mode(stubs: &Vec<Stub>) -> (r: ProxyMode)
    ensures
        r == proxy_mode_of(stubs@),
{
    let mut i: usize = 0;
    proof {
        assert(stubs@.skip(0) =~= stubs@);
    }
    while i < stubs.len()
        invariant
            i <= stubs@.len(),
            proxy_mode_of(stubs@) == proxy_mode_of(stubs@.skip(i as int)),
        decreases stubs@.len() - i,
    {
        proof {
            assert(stubs@.skip(i as int).drop_first() =~= stubs@.skip(i + 1));
            assert(stubs@.skip(i as int)[0] == stubs@[i as int]);
        }
        let responses = &stubs[i].responses;
        let mut j: usize = 0;
        proof {
            assert(responses@.skip(0) =~= responses@);
        }
        while j < responses.len()
            invariant
                j <= responses@.len(),
                i < stubs@.len(),
                *responses == stubs@[i as int].responses,
                proxy_mode_of(stubs@) == proxy_mode_of(stubs@.skip(i as int)),
                stubs@.skip(i as int)[0] == stubs@[i as int],
                first_mode(responses@) == first_mode(responses@.skip(j as int)),
            decreases responses@.len() - j,
        {
            proof {
                assert(responses@.skip(j as int).drop_first() =~= responses@.skip(j + 1));
                assert(responses@.skip(j as int)[0] == responses@[j as int]);
            }
            if let StubResponse::Proxy { proxy } = &responses[j] {
                return mode_of(proxy.mode.as_str());
            }
            j += 1;
        }
        i += 1;
    }
    ProxyMode::ProxyTransparent
}

/// Whether a stub proxies to an address.
pub open spec fn proxies_to(s: Stub, to: Seq<char>) -> bool {
    exists|k: int|
        0 <= k < s.responses@.len() && is_proxy_to(#[trigger] s.responses@[k], to)
}

/// Whether a response proxies to an address.
pub open spec fn is_proxy_to(r: StubResponse, to: Seq<char>) -> bool {
    match r {
        StubResponse::Proxy { proxy } => proxy.to@ == to,
        _ => false,
    }
}

/// The first stub that proxies to an address; past the end where there is none.
pub open spec fn proxy_position(stubs: Seq<StubState>, to: Seq<char>) -> int
    decreases stubs.len(),
{
    if stubs.len() == 0 {
        0
    } else if proxies_to(stubs[0].stub, to) {
        0
    } else {
        1 + proxy_position(stubs.drop_first(), to)
    }
}

/// Whether a recorded stub may take more responses for these predicates: its own are the same, and
/// there are some.
pub open spec fn mergeable(s: StubState, predicates: Seq<Predicate>) -> bool {
    predicate::same_predicates(s.stub.predicates@, predicates) && s.stub.predicates@.len() > 0
}

/// The first stub from `from` on that may take more responses for these predicates.
pub open spec fn merge_position(
    stubs: Seq<StubState>,
    from: int,
    predicates: Seq<Predicate>,
) -> Option<int>
    decreases stubs.len() - from,
{
    if from >= stubs.len() {
        None
    } else if mergeable(stubs[from], predicates) {
        Some(from)
    } else {
        merge_position(stubs, from + 1, predicates)
    }
}

/// The lesser of two positions.
pub open spec fn at_most(i: int, n: int) -> int {
    if i < n {
        i
    } else {
        n
    }
}

/// A new stub stands at a position, in a slot of its own at the start of its cycle; the others keep
/// their order.
pub open spec fn inserted(
    before: Seq<StubState>,
    after: Seq<StubState>,
    at: int,
    stub: Stub,
    slot: u64,
) -> bool {
    &&& 0 <= at <= before.len()
    &&& after.len() == before.len() + 1
    &&& after[at].stub == stub
    &&& after[at].slot == slot
    &&& after[at].cycler.index == 0
    &&& after[at].cycler.served == 0
    &&& after == before.insert(at, after[at])
}

/// The stub at a position took more responses, at the end; its place in the cycle, its slot and
/// everything else stay.
pub open spec fn extended(
    before: Seq<StubState>,
    after: Seq<StubState>,
    at: int,
    responses: Seq<StubResponse>,
) -> bool {
    &&& 0 <= at < before.len()
    &&& after == before.update(at, after[at])
    &&& after[at].slot == before[at].slot
    &&& after[at].cycler == before[at].cycler
    &&& after[at].stub.responses@ == before[at].stub.responses@ + responses
    &&& after[at].stub == (Stub { responses: after[at].stub.responses, ..before[at].stub })
}

/// Where a recorded stub goes. Under `proxyAlways` it follows the proxy, so that the proxy stays
/// in front and records every request: its responses join a later stub with the same predicates,
/// where there is one. Otherwise it precedes the proxy, so that it answers from then on.
pub open spec fn placed(
    before: Seq<StubState>,
    after: Seq<StubState>,
    stub: Stub,
    to: Seq<char>,
    mode: Seq<char>,
    slot: u64,
) -> bool {
    let at = proxy_position(before, to);
    if mode == "proxyAlways"@ {
        match merge_position(before, at + 1, stub.predicates@) {
            Some(i) => extended(before, after, i, stub.responses@),
            None => inserted(before, after, at_most(at + 1, before.len() as int), stub, slot),
        }
    } else {
        inserted(before, after, at_most(at, before.len() as int), stub, slot)
    }
}

fn stub_proxies_to(s: &Stub, to: &str) -> (r: bool)
    ensures
        r == proxies_to(*s, to@),
{
    let mut k: usize = 0;
    while k < s.responses.len()
        invariant
            k <= s.responses@.len(),
            forall|j: int| 0 <= j < k ==> !is_proxy_to(#[trigger] s.responses@[j], to@),
        decreases s.responses@.len() - k,
    {
        if let StubResponse::Proxy { proxy } = &s.responses[k] {
            if text::same_text(proxy.to.as_str(), to) {
                proof {
                    assert(is_proxy_to(s.responses@[k as int], to@));
                }
                return true;
            }
        }
        k += 1;
    }
    false
}

fn position_of_proxy(stubs: &Vec<StubState>, to: &str) -> (r: usize)
    ensures
        r == proxy_position(stubs@, to@),
        r <= stubs@.len(),
{
    let mut i: usize = 0;
    proof {
        assert(stubs@.skip(0) =~= stubs@);
    }
    while i < stubs.len()
        invariant
            i <= stubs@.len(),
            proxy_position(stubs@, to@) == i + proxy_position(stubs@.skip(i as int), to@),
        decreases stubs@.len() - i,
    {
        proof {
            assert(stubs@.skip(i as int).drop_first() =~= stubs@.skip(i + 1));
            assert(stubs@.skip(i as int)[0] == stubs@[i as int]);
        }
        if stub_proxies_to(&stubs[i].stub, to) {
            return i;
        }
        i += 1;
    }
    i
}

/// Puts a generated stub at a position, or at the end where the position lies past it.
pub fn insert_generated_stub(
    stubs: &mut Vec<StubState>,
    stub: Stub,
    before_index: usize,
    slot: u64,
)
    ensures
        inserted(
            old(stubs)@,
            final(stubs)@,
            at_most(before_index as int, old(stubs)@.len() as int),
            stub,
            slot,
        ),
{
    let n: usize = stubs.len();
    let at: usize = if before_index < n {
        before_index
    } else {
        n
    };
    stubs.insert(at, StubState::new(stub, slot));
}

/// Puts a recorded stub where its proxy's mode wants it. The proxy is looked up anew, by its
/// address.
pub fn insert_or_append_proxy_stub(
    stubs: &mut Vec<StubState>,
    stub: Stub,
    proxy_to: &str,
    proxy_mode: &str,
    slot: u64,
)
    ensures
        placed(old(stubs)@, final(stubs)@, stub, proxy_to@, proxy_mode@, slot),
{
    let at: usize = position_of_proxy(stubs, proxy_to);
    let ghost before = stubs@;
    if !text::same_text(proxy_mode, "proxyAlways") {
        insert_generated_stub(stubs, stub, at, slot);
        return ;
    }
    let n: usize = stubs.len();
    let start: usize = if at < n {
        at + 1
    } else {
        n
    };
    proof {
        if at == n {
            assert(merge_position(before, at + 1, stub.predicates@) is None);
            assert(merge_position(before, n as int, stub.predicates@) is None);
        }
    }
    let mut i: usize = start;
    while i < n
        invariant
            n == stubs@.len(),
            stubs@ == before,
            before == old(stubs)@,
            at == proxy_position(before, proxy_to@),
            proxy_mode@ == "proxyAlways"@,
            i <= n,
            merge_position(before, at + 1, stub.predicates@) == merge_position(
                before,
                i as int,
                stub.predicates@,
            ),
        decreases n - i,
    {
        if stubs[i].stub.predicates.len() > 0 && predicate::predicates_same(
            &stubs[i].stub.predicates,
            &stub.predicates,
        ) {
            let mut slot_state: StubState = stubs.remove(i);
            let ghost was = slot_state;
            let mut more: Vec<StubResponse> = stub.responses;
            slot_state.stub.responses.append(&mut more);
            stubs.insert(i, slot_state);
            proof {
                assert(stubs@ =~= before.update(i as int, slot_state));
                assert(was == before[i as int]);
            }
            return ;
        }
        i += 1;
    }
    insert_generated_stub(stubs, stub, start, slot);
}

/// Where a text first stands in another, from `from` on.
pub open spec fn first_place(s: Seq<char>, needle: Seq<char>, from: int) -> Option<int>
    decreases s.len() + 1 - from,
{
    if from < 0 || from + needle.len() > s.len() {
        None
    } else if s.subrange(from, from + needle.len() as int) == needle {
        Some(from)
    } else {
        first_place(s, needle, from + 1)
    }
}

/// A text with the first occurrence of another replaced.
pub open spec fn replaced_once(s: Seq<char>, from: Seq<char>, to: Seq<char>) -> Seq<char> {
    match first_place(s, from, 0) {
        Some(at) => s.take(at) + to + s.skip(at + from.len() as int),
        None => s,
    }
}

/// A text with the first occurrence of another replaced.
pub fn replace_once(s: &str, from: &str, to: &str) -> (r: String)
    ensures
        r@ == replaced_once(s@, from@, to@),
{
    let chars: Vec<char> = text::chars_of(s);
    let needle: Vec<char> = text::chars_of(from);
    let n: usize = chars.len();
    let m: usize = needle.len();
    let mut at: usize = 0;
    while at <= n && m <= n - at
        invariant
            chars@ == s@,
            needle@ == from@,
            n == s@.len(),
            m == from@.len(),
            at <= n + 1,
            first_place(s@, from@, 0) == first_place(s@, from@, at as int),
        decreases n + 1 - at,
    {
        let piece: String = text::text_of(&chars, at, at + m);
        if text::same_text(piece.as_str(), from) {
            let mut out: String = text::text_of(&chars, 0, at);
            out.append(to);
            out.append(text::text_of(&chars, at + m, n).as_str());
            proof {
                assert(s@.subrange(0, at as int) =~= s@.take(at as int));
                assert(s@.subrange(at + m, n as int) =~= s@.skip(at + m));
            }
            return out;
        }
        if at == n {
            proof {
                assert(first_place(s@, from@, at + 1) is None);
            }
            return s.to_owned();
        }
        at += 1;
    }
    s.to_owned()
}

/// The path that is asked for upstream.
pub open spec fn upstream_path(path: Seq<char>, rewrite: Option<PathRewrite>) -> Seq<char> {
    match rewrite {
        Some(w) => replaced_once(path, w.from@, w.to@),
        None => path,
    }
}

/// The URL that is asked for upstream.
pub open spec fn upstream_url(
    to: Seq<char>,
    path: Seq<char>,
    rewrite: Option<PathRewrite>,
    query: Option<Seq<char>>,
) -> Seq<char> {
    let base = to + upstream_path(path, rewrite);
    match query {
        Some(q) => base + "?"@ + q,
        None => base,
    }
}

/// The URL that is asked for upstream.
pub fn target_url(
    to: &str,
    path: &str,
    rewrite: &Option<PathRewrite>,
    query: Option<&str>,
) -> (r: String)
    ensures
        r@ == upstream_url(to@, path@, *rewrite, text::optional_str(query)),
{
    let mut url: String = to.to_owned();
    match rewrite {
        Some(w) => {
            url.append(replace_once(path, w.from.as_str(), w.to.as_str()).as_str());
        },
        None => {
            url.append(path);
        },
    }
    if let Some(q) = query {
        url.append("?");
        url.append(q);
    }
    url
}

/// The upper-case form `str::to_uppercase` gives a text.
pub uninterp spec fn uppercased(s: Seq<char>) -> Seq<char>;

/// `str::to_uppercase`: the Unicode upper-case form of a text, a function of the text.
#[verifier::external_body]
fn to_upper(s: &str) -> (r: String)
    ensures
        r@ == uppercased(s@),
{
    s.to_uppercase()
}

/// The method an upper-case name stands for upstream; `GET` for any that is not forwarded.
pub open spec fn verb_of(upper: Seq<char>) -> Seq<char> {
    if upper == "POST"@ || upper == "PUT"@ || upper == "DELETE"@ || upper == "PATCH"@ || upper
        == "HEAD"@ {
        upper
    } else {
        "GET"@
    }
}

/// The method an upper-case name stands for upstream.
pub fn forwarded_verb(upper: &str) -> (r: &'static str)
    ensures
        r@ == verb_of(upper@),
{
    if text::same_text(upper, "POST") {
        "POST"
    } else if text::same_text(upper, "PUT") {
        "PUT"
    } else if text::same_text(upper, "DELETE") {
        "DELETE"
    } else if text::same_text(upper, "PATCH") {
        "PATCH"
    } else if text::same_text(upper, "HEAD") {
        "HEAD"
    } else {
        "GET"
    }
}

/// The method a request is forwarded with, whatever its case.
pub fn upstream_method(method: &str) -> (r: &'static str)
    ensures
        r@ == verb_of(uppercased(method@)),
{
    forwarded_verb(to_upper(method).as_str())
}

/// Whether a request header is forwarded: all but those that belong to the connection.
pub open spec fn forwards(name: Seq<char>) -> bool {
    !text::text_eq(name, "host"@, false) && !text::text_eq(name, "content-length"@, false)
}

/// The request headers that are forwarded, in order.
pub open spec fn kept_headers(headers: Seq<(Seq<char>, Seq<char>)>) -> Seq<(Seq<char>, Seq<char>)>
    decreases headers.len(),
{
    if headers.len() == 0 {
        Seq::empty()
    } else if forwards(headers.last().0) {
        kept_headers(headers.drop_last()).push(headers.last())
    } else {
        kept_headers(headers.drop_last())
    }
}

/// The headers that are sent upstream: the request's own, but for those that belong to the
/// connection, and those the proxy adds.
pub fn upstream_headers(
    headers: &Vec<(String, String)>,
    inject: &Vec<(String, String)>,
) -> (r: Vec<(String, String)>)
    ensures
        lookup::pairs(r@) == kept_headers(lookup::pairs(headers@)) + lookup::pairs(inject@),
{
    let ghost all = lookup::pairs(headers@);
    let mut out: Vec<(String, String)> = Vec::new();
    let mut i: usize = 0;
    proof {
        assert(lookup::pairs(out@) =~= kept_headers(all.take(0)));
    }
    while i < headers.len()
        invariant
            i <= headers@.len(),
            all == lookup::pairs(headers@),
            lookup::pairs(out@) == kept_headers(all.take(i as int)),
        decreases headers@.len() - i,
    {
        let h = &headers[i];
        proof {
            assert(all.take(i + 1).drop_last() =~= all.take(i as int));
            assert(all.take(i + 1).last() == all[i as int]);
        }
        if !text::texts_equal(h.0.as_str(), "host", false) && !text::texts_equal(
            h.0.as_str(),
            "content-length",
            false,
        ) {
            let ghost had = out@;
            out.push((h.0.as_str().to_owned(), h.1.as_str().to_owned()));
            proof {
                assert(lookup::pairs(out@) =~= lookup::pairs(had).push(all[i as int]));
            }
        }
        i += 1;
    }
    proof {
        assert(all.take(all.len() as int) =~= all);
    }
    let ghost own = out@;
    let mut added: Vec<(String, String)> = lookup::copy_list(inject);
    let ghost extra = added@;
    out.append(&mut added);
    proof {
        assert(lookup::pairs(out@) =~= lookup::pairs(own) + lookup::pairs(extra));
    }
    out
}

/// What is said of an upstream body that is too large.
pub open spec fn too_large(url: Seq<char>, size: u64) -> Seq<char> {
    "Proxy response body from "@ + url + " exceeds maximum size ("@ + text::decimal(size as nat)
        + " > "@ + text::decimal(MAX_PROXY_RESPONSE_BODY_SIZE as nat) + " bytes)"@
}

/// Why an upstream body of this size is not taken: too large, whether announced or read.
pub fn oversized(url: &str, size: u64) -> (r: Option<String>)
    ensures
        (match r {
            Some(m) => size > MAX_PROXY_RESPONSE_BODY_SIZE && m@ == too_large(url@, size),
            None => size <= MAX_PROXY_RESPONSE_BODY_SIZE,
        }),
{
    if size <= MAX_PROXY_RESPONSE_BODY_SIZE as u64 {
        return None;
    }
    let mut m: String = "Proxy response body from ".to_owned();
    m.append(url);
    m.append(" exceeds maximum size (");
    m.append(text::decimal_text(size).as_str());
    m.append(" > ");
    m.append(text::decimal_text(MAX_PROXY_RESPONSE_BODY_SIZE as u64).as_str());
    m.append(" bytes)");
    Some(m)
}

/// A mode is named in whatever case: `proxyOnce` and `proxyAlways` record, and every other name, an
/// empty one too, records nothing.
pub proof fn law_modes_are_named_in_any_case(name: Seq<char>)
    ensures
        text::text_eq(name, "proxyonce"@, false) ==> mode_named(name) == ProxyMode::ProxyOnce,
        text::text_eq(name, "proxyalways"@, false) ==> mode_named(name) == ProxyMode::ProxyAlways,
        !text::text_eq(name, "proxyonce"@, false) && !text::text_eq(name, "proxyalways"@, false)
            ==> mode_named(name) == ProxyMode::ProxyTransparent,
{
    if text::text_eq(name, "proxyonce"@, false) && text::text_eq(name, "proxyalways"@, false) {
        reveal_strlit("proxyonce");
        reveal_strlit("proxyalways");
        vstd::utf8::is_ascii_chars_encode_utf8("proxyonce"@);
        vstd::utf8::is_ascii_chars_encode_utf8("proxyalways"@);
        assert(text::comparable("proxyonce"@, false).len() == 9);
        assert(text::comparable("proxyalways"@, false).len() == 11);
    }
}

proof fn lemma_first_mode(responses: Seq<StubResponse>, k: int)
    requires
        forall|j: int| 0 <= j < k ==> !((#[trigger] responses[j]) is Proxy),
        0 <= k <= responses.len(),
    ensures
        k == responses.len() ==> first_mode(responses) is None,
        k < responses.len() && responses[k] is Proxy ==> first_mode(responses) == Some(
            mode_named(responses[k]->proxy.mode@),
        ),
    decreases k,
{
    if k > 0 {
        assert(!(responses[0] is Proxy));
        let rest = responses.drop_first();
        assert forall|j: int| 0 <= j < k - 1 implies !((#[trigger] rest[j]) is Proxy) by {
            assert(rest[j] == responses[j + 1]);
        }
        lemma_first_mode(rest, k - 1);
    }
}

/// Whether a stub proxies anywhere.
pub open spec fn proxies(s: Stub) -> bool {
    exists|k: int| 0 <= k < s.responses@.len() && (#[trigger] s.responses@[k]) is Proxy
}

/// The first proxy among the stubs says how all of them record: its mode is the mode of the whole.
/// Without a proxy nothing is recorded.
pub proof fn law_the_first_proxy_says_the_mode(stubs: Seq<Stub>, i: int, k: int)
    requires
        0 <= i <= stubs.len(),
        forall|j: int| 0 <= j < i ==> !proxies(#[trigger] stubs[j]),
    ensures
        i == stubs.len() ==> proxy_mode_of(stubs) == ProxyMode::ProxyTransparent,
        i < stubs.len() && 0 <= k < stubs[i].responses@.len() && stubs[i].responses@[k] is Proxy
            && (forall|j: int| 0 <= j < k ==> !((#[trigger] stubs[i].responses@[j]) is Proxy))
            ==> proxy_mode_of(stubs) == mode_named(stubs[i].responses@[k]->proxy.mode@),
    decreases i,
{
    if i > 0 {
        let rest = stubs.drop_first();
        let first = stubs[0].responses@;
        assert(!proxies(stubs[0]));
        lemma_first_mode(first, first.len() as int);
        assert forall|j: int| 0 <= j < i - 1 implies !proxies(#[trigger] rest[j]) by {
            assert(rest[j] == stubs[j + 1]);
        }
        law_the_first_proxy_says_the_mode(rest, i - 1, k);
        if i < stubs.len() {
            assert(rest[i - 1] == stubs[i]);
        }
    } else if stubs.len() > 0 {
        let first = stubs[0].responses@;
        if 0 <= k < first.len() && first[k] is Proxy && (forall|j: int|
            0 <= j < k ==> !((#[trigger] first[j]) is Proxy)) {
            lemma_first_mode(first, k);
        }
    }
}

/// The position of a proxy is that of the first stub that proxies to the address; past the end
/// where none does.
pub proof fn law_proxies_are_found_by_address(stubs: Seq<StubState>, to: Seq<char>)
    ensures
        0 <= proxy_position(stubs, to) <= stubs.len(),
        proxy_position(stubs, to) < stubs.len() ==> exists|k: int|
            0 <= k < stubs[proxy_position(stubs, to)].stub.responses@.len() && (
            #[trigger] stubs[proxy_position(stubs, to)].stub.responses@[k]) is Proxy && stubs[
                proxy_position(stubs, to)
            ].stub.responses@[k]->proxy.to@ == to,
        forall|i: int, k: int|
            0 <= i < proxy_position(stubs, to) && 0 <= k < stubs[i].stub.responses@.len() && (
            #[trigger] stubs[i].stub.responses@[k]) is Proxy ==> stubs[i].stub.responses@[k]->proxy.to@
                != to,
    decreases stubs.len(),
{
    if stubs.len() > 0 && !proxies_to(stubs[0].stub, to) {
        let rest = stubs.drop_first();
        law_proxies_are_found_by_address(rest, to);
        let p = proxy_position(stubs, to);
        assert forall|i: int, k: int|
            0 <= i < p && 0 <= k < stubs[i].stub.responses@.len() && (
            #[trigger] stubs[i].stub.responses@[k]) is Proxy implies stubs[i].stub.responses@[k]->proxy.to@
            != to by {
            if i > 0 {
                assert(rest[i - 1] == stubs[i]);
                assert(rest[i - 1].stub.responses@[k] is Proxy);
            } else {
                assert(!is_proxy_to(stubs[0].stub.responses@[k], to));
            }
        }
        if p < stubs.len() {
            assert(rest[p - 1] == stubs[p]);
            let k = choose|k: int|
                0 <= k < rest[p - 1].stub.responses@.len() && (
                #[trigger] rest[p - 1].stub.responses@[k]) is Proxy && rest[p
                    - 1].stub.responses@[k]->proxy.to@ == to;
            assert(stubs[p].stub.responses@[k] is Proxy);
        }
    } else if stubs.len() > 0 {
        let k = choose|k: int|
            0 <= k < stubs[0].stub.responses@.len() && is_proxy_to(
                #[trigger] stubs[0].stub.responses@[k],
                to,
            );
        assert(stubs[0].stub.responses@[k] is Proxy);
    }
}

proof fn lemma_merge_position(stubs: Seq<StubState>, from: int, predicates: Seq<Predicate>)
    requires
        0 <= from,
    ensures
        merge_position(stubs, from, predicates) matches Some(i) ==> from <= i < stubs.len()
            && mergeable(stubs[i], predicates) && forall|j: int|
            from <= j < i ==> !mergeable(#[trigger] stubs[j], predicates),
        merge_position(stubs, from, predicates) is None ==> forall|j: int|
            from <= j < stubs.len() ==> !mergeable(#[trigger] stubs[j], predicates),
    decreases stubs.len() - from,
{
    if from < stubs.len() && !mergeable(stubs[from], predicates) {
        lemma_merge_position(stubs, from + 1, predicates);
    }
}

/// Whether a stub has these very predicates, and any at all.
pub open spec fn asks_for(s: StubState, predicates: Seq<Predicate>) -> bool {
    s.stub.predicates@.len() > 0 && predicate::same_predicates(s.stub.predicates@, predicates)
}

/// A stub that was recorded once stands right before the first stub that proxies to its address, so
/// that it answers from then on; and at the end where there is no such stub. Every other stub is
/// still there, in its order.
pub proof fn law_recorded_once_stands_before_the_proxy(
    before: Seq<StubState>,
    after: Seq<StubState>,
    stub: Stub,
    to: Seq<char>,
    mode: Seq<char>,
    slot: u64,
    i: int,
)
    requires
        placed(before, after, stub, to, mode, slot),
        mode != "proxyAlways"@,
        0 <= i <= before.len(),
        forall|j: int| 0 <= j < i ==> !proxies_to((#[trigger] before[j]).stub, to),
        i < before.len() ==> proxies_to(before[i].stub, to),
    ensures
        after.len() == before.len() + 1,
        after[i].stub == stub,
        after[i].slot == slot,
        after[i].cycler.index == 0 && after[i].cycler.served == 0,
        forall|j: int| 0 <= j < i ==> #[trigger] after[j] == before[j],
        forall|j: int| i < j < after.len() ==> #[trigger] after[j] == before[j - 1],
{
    lemma_position_is(before, to, i);
}

proof fn lemma_position_is(stubs: Seq<StubState>, to: Seq<char>, i: int)
    requires
        0 <= i <= stubs.len(),
        forall|j: int| 0 <= j < i ==> !proxies_to((#[trigger] stubs[j]).stub, to),
        i < stubs.len() ==> proxies_to(stubs[i].stub, to),
    ensures
        proxy_position(stubs, to) == i,
    decreases i,
{
    if i > 0 {
        assert(!proxies_to(stubs[0].stub, to));
        let rest = stubs.drop_first();
        assert forall|j: int| 0 <= j < i - 1 implies !proxies_to(
            (#[trigger] rest[j]).stub,
            to,
        ) by {
            assert(rest[j] == stubs[j + 1]);
        }
        lemma_position_is(rest, to, i - 1);
    }
}

/// A stub that is recorded always stands behind the stub that proxies, which stays where it is:
/// right behind it where no stub further on has its predicates, and else as more responses of the
/// first that has, behind those it had. No stub before the proxy, nor the proxy itself, changes.
pub proof fn law_recorded_always_stands_behind_the_proxy(
    before: Seq<StubState>,
    after: Seq<StubState>,
    stub: Stub,
    to: Seq<char>,
    slot: u64,
    i: int,
    at: int,
)
    requires
        placed(before, after, stub, to, "proxyAlways"@, slot),
        0 <= i < before.len(),
        forall|j: int| 0 <= j < i ==> !proxies_to((#[trigger] before[j]).stub, to),
        proxies_to(before[i].stub, to),
    ensures
        forall|j: int| 0 <= j <= i ==> #[trigger] after[j] == before[j],
        (forall|j: int| i < j < before.len() ==> !asks_for(#[trigger] before[j], stub.predicates@))
            ==> after.len() == before.len() + 1 && after[i + 1].stub == stub && after[i + 1].slot
            == slot && forall|j: int| i + 1 < j < after.len() ==> #[trigger] after[j] == before[j
            - 1],
        (i < at < before.len() && asks_for(before[at], stub.predicates@) && forall|j: int|
            i < j < at ==> !asks_for(#[trigger] before[j], stub.predicates@)) ==> {
            &&& after.len() == before.len()
            &&& after[at].stub.responses@ == before[at].stub.responses@ + stub.responses@
            &&& after[at].stub.predicates == before[at].stub.predicates
            &&& after[at].slot == before[at].slot
            &&& after[at].cycler == before[at].cycler
            &&& forall|j: int| 0 <= j < after.len() && j != at ==> #[trigger] after[j] == before[j]
        },
{
    lemma_position_is(before, to, i);
    lemma_merge_position(before, i + 1, stub.predicates@);
    assert forall|j: int| 0 <= j < before.len() implies mergeable(
        #[trigger] before[j],
        stub.predicates@,
    ) == asks_for(before[j], stub.predicates@) by {
    }
    if i < at < before.len() && asks_for(before[at], stub.predicates@) {
        assert(mergeable(before[at], stub.predicates@));
    }
}

proof fn lemma_first_place(s: Seq<char>, needle: Seq<char>, from: int)
    requires
        0 <= from,
    ensures
        first_place(s, needle, from) matches Some(at) ==> from <= at && at + needle.len()
            <= s.len() && s.subrange(at, at + needle.len() as int) == needle && forall|j: int|
            from <= j < at ==> #[trigger] s.subrange(j, j + needle.len() as int) != needle,
        first_place(s, needle, from) is None ==> forall|j: int|
            from <= j && j + needle.len() <= s.len() ==> #[trigger] s.subrange(
                j,
                j + needle.len() as int,
            ) != needle,
    decreases s.len() + 1 - from,
{
    if from + needle.len() <= s.len() && s.subrange(from, from + needle.len() as int) != needle {
        lemma_first_place(s, needle, from + 1);
    }
}

/// A path is rewritten at the first place where the text to be replaced stands, and there alone;
/// what stands before and behind it stays. Where it stands nowhere the path stays as it is.
pub proof fn law_paths_are_rewritten_once(
    path: Seq<char>,
    before: Seq<char>,
    behind: Seq<char>,
    rewrite: PathRewrite,
)
    ensures
        ({
            let from = rewrite.from@;
            let n = from.len() as int;
            &&& upstream_path(path, None) == path
            &&& path == before + from + behind && (forall|j: int|
                0 <= j < before.len() ==> #[trigger] path.subrange(j, j + n) != from)
                ==> upstream_path(path, Some(rewrite)) == before + rewrite.to@ + behind
            &&& (forall|j: int|
                0 <= j && j + n <= path.len() ==> #[trigger] path.subrange(j, j + n) != from)
                ==> upstream_path(path, Some(rewrite)) == path
        }),
{
    let from = rewrite.from@;
    let n = from.len() as int;
    lemma_first_place(path, from, 0);
    if path == before + from + behind && (forall|j: int|
        0 <= j < before.len() ==> #[trigger] path.subrange(j, j + n) != from) {
        let b = before.len() as int;
        assert(path.subrange(b, b + n) =~= from);
        assert(first_place(path, from, 0) is Some);
        let at = first_place(path, from, 0)->0;
        assert(path.subrange(at, at + n) == from);
        assert(at == b);
        assert(path.take(b) =~= before);
        assert(path.skip(b + n) =~= behind);
    }
}

/// The URL asked for upstream is the proxy's address, the path as rewritten, and the query behind a
/// question mark where the request has one.
pub proof fn law_upstream_urls_are_put_together(
    to: Seq<char>,
    path: Seq<char>,
    rewrite: Option<PathRewrite>,
    query: Seq<char>,
)
    ensures
        upstream_url(to, path, rewrite, None) == to + upstream_path(path, rewrite),
        upstream_url(to, path, rewrite, Some(query)) == upstream_url(to, path, rewrite, None)
            + "?"@ + query,
        upstream_url(to, path, None, None) == to + path,
{
}

/// Six methods are asked for upstream under their own name; every other is asked for as `GET`.
pub proof fn law_methods_are_forwarded_by_name(upper: Seq<char>)
    ensures
        verb_of("GET"@) == "GET"@,
        verb_of("POST"@) == "POST"@,
        verb_of("PUT"@) == "PUT"@,
        verb_of("DELETE"@) == "DELETE"@,
        verb_of("PATCH"@) == "PATCH"@,
        verb_of("HEAD"@) == "HEAD"@,
        verb_of(upper) == upper || verb_of(upper) == "GET"@,
        upper != "POST"@ && upper != "PUT"@ && upper != "DELETE"@ && upper != "PATCH"@ && upper
            != "HEAD"@ ==> verb_of(upper) == "GET"@,
{
}

/// Every request header is forwarded, in order, but for the host and the length, in whatever case:
/// what is forwarded of two lists together is what is forwarded of each.
pub proof fn law_request_headers_are_forwarded(
    a: Seq<(Seq<char>, Seq<char>)>,
    b: Seq<(Seq<char>, Seq<char>)>,
    header: (Seq<char>, Seq<char>),
)
    ensures
        kept_headers(a + b) == kept_headers(a) + kept_headers(b),
        kept_headers(b).contains(header) <==> b.contains(header) && !text::text_eq(
            header.0,
            "host"@,
            false,
        ) && !text::text_eq(header.0, "content-length"@, false),
    decreases b.len(),
{
    if b.len() == 0 {
        assert(a + b =~= a);
        assert(kept_headers(a) + kept_headers(b) =~= kept_headers(a));
        assert(!b.contains(header));
    } else {
        let rest = b.drop_last();
        law_request_headers_are_forwarded(a, rest, header);
        assert((a + b).drop_last() =~= a + rest);
        assert((a + b).last() == b.last());
        assert(kept_headers(a + b) =~= kept_headers(a) + kept_headers(b));
        let last = b.last();
        if rest.contains(header) {
            let i = choose|i: int| 0 <= i < rest.len() && rest[i] == header;
            assert(b[i] == header);
        }
        if b.contains(header) && header != last {
            let i = choose|i: int| 0 <= i < b.len() && b[i] == header;
            assert(rest[i] == header);
        }
        if header == last {
            assert(b[b.len() - 1] == header);
        }
        if forwards(last.0) {
            let all = kept_headers(b);
            let some = kept_headers(rest);
            assert(all[some.len() as int] == last);
            if some.contains(header) {
                let i = choose|i: int| 0 <= i < some.len() && some[i] == header;
                assert(all[i] == header);
            }
            if all.contains(header) && header != last {
                let i = choose|i: int| 0 <= i < all.len() && all[i] == header;
                assert(some[i] == header);
            }
        }
    }
}

} // verus!
