//! Request bodies as they come in, and response bodies as they go out.

use crate::fault;
use crate::headers;
use crate::json;
use crate::json::{Json, JsonModel};
use crate::lookup;
use crate::pipeline::{PartsModel, ServedParts};
use crate::record;
use crate::responses;
use crate::responses::{ResponseModel, ServedResponse};
use crate::text;
use crate::types::{IsResponse, ResponseMode};
use base64::Engine;
use vstd::prelude::*;
use vstd::utf8::*;

verus! {

/// The base64 text of some bytes.
pub uninterp spec fn base64_text(bytes: Seq<u8>) -> Seq<char>;

/// What a base64 text decodes to, or why it does not.
pub uninterp spec fn base64_bytes(encoded: Seq<char>) -> Result<Seq<u8>, Seq<char>>;

/// Whether a base64 text decodes to some bytes.
pub open spec fn decodes_to(encoded: Seq<char>, bytes: Seq<u8>) -> bool {
    base64_bytes(encoded) matches Ok(b) && b == bytes
}

/// `base64::Engine::encode` of the standard engine: the base64 text of the bytes, which decodes to
/// the bytes again.
#[verifier::external_body]
fn encode_base64(bytes: &Vec<u8>) -> (r: String)
    requires
        bytes@.len() <= responses::MAX_REQUEST_BODY_SIZE,
    ensures
        r@ == base64_text(bytes@),
        decodes_to(r@, bytes@),
{
    base64::engine::general_purpose::STANDARD.encode(bytes)
}

/// A decoding's result as contracts see it.
pub open spec fn decoding(r: Result<Vec<u8>, String>) -> Result<Seq<u8>, Seq<char>> {
    match r {
        Ok(v) => Ok(v@),
        Err(e) => Err(e@),
    }
}

/// `base64::Engine::decode` of the standard engine: what the text decodes to, or the error's text.
#[verifier::external_body]
fn decode_base64(encoded: &str) -> (r: Result<Vec<u8>, String>)
    ensures
        decoding(r) == base64_bytes(encoded@),
{
    base64::engine::general_purpose::STANDARD.decode(encoded).map_err(|e| e.to_string())
}

/// What reading a request's body came to.
#[derive(Debug)]
pub enum BodyRead {
    Bytes(Vec<u8>),
    /// Reading stopped at the size limit.
    TooLarge,
    /// The client's transmission broke off.
    Failed,
}

/// A request's body: text as it is, other bytes as base64.
#[derive(Debug)]
pub struct RequestBody {
    pub body: Option<String>,
    pub mode: ResponseMode,
}

/// A body of some bytes; none where there are no bytes.
pub open spec fn body_of(bytes: Seq<u8>) -> (Option<Seq<char>>, ResponseMode) {
    if bytes.len() == 0 {
        (None, ResponseMode::Text)
    } else if valid_utf8(bytes) {
        (Some(decode_utf8(bytes)), ResponseMode::Text)
    } else {
        (Some(base64_text(bytes)), ResponseMode::Binary)
    }
}

/// The bytes a body stands for.
pub open spec fn bytes_behind(body: Seq<char>, mode: ResponseMode) -> Result<Seq<u8>, Seq<char>> {
    match mode {
        ResponseMode::Text => Ok(encode_utf8(body)),
        ResponseMode::Binary => base64_bytes(body),
    }
}

/// A request's body, or what the request is answered where it could not be read. No byte is lost:
/// the body gives the bytes back.
pub fn take_body(read: BodyRead) -> (r: Result<RequestBody, ServedResponse>)
    ensures
        (match read {
            BodyRead::Bytes(bytes) => if bytes@.len() <= responses::MAX_REQUEST_BODY_SIZE {
                r is Ok && (text::optional_text(r->Ok_0.body), r->Ok_0.mode) == body_of(bytes@)
                    && (r->Ok_0.body is Some ==> bytes_behind(r->Ok_0.body->0@, r->Ok_0.mode) == Ok::<
                    Seq<u8>,
                    Seq<char>,
                >(bytes@))
            } else {
                r is Err && r->Err_0@ == responses::too_large()
            },
            BodyRead::TooLarge => r is Err && r->Err_0@ == responses::too_large(),
            BodyRead::Failed => r is Err && r->Err_0@ == responses::failure(
                400,
                "Failed to read request body"@,
            ),
        }),
{
    match read {
        BodyRead::Bytes(bytes) => {
            if bytes.len() > responses::MAX_REQUEST_BODY_SIZE {
                return Err(responses::body_too_large_response());
            }
            if bytes.len() == 0 {
                return Ok(RequestBody { body: None, mode: ResponseMode::Text });
            }
            let copy = headers::copy_bytes(&bytes);
            match String::from_utf8(copy) {
                Ok(t) => {
                    proof {
                        decode_utf8_encode_utf8(bytes@);
                    }
                    Ok(RequestBody { body: Some(t), mode: ResponseMode::Text })
                },
                Err(_) => Ok(
                    RequestBody { body: Some(encode_base64(&bytes)), mode: ResponseMode::Binary },
                ),
            }
        },
        BodyRead::TooLarge => Err(responses::body_too_large_response()),
        BodyRead::Failed => Err(responses::body_read_error_response()),
    }
}

/// The lines of one name.
pub open spec fn lines_for(name: Seq<char>, values: Seq<Seq<char>>) -> Seq<(Seq<char>, Seq<char>)> {
    Seq::new(values.len(), |i: int| (name, values[i]))
}

/// Header lines, one after the other.
pub open spec fn flat(lines: Seq<(Seq<char>, Seq<Seq<char>>)>) -> Seq<(Seq<char>, Seq<char>)>
    decreases lines.len(),
{
    if lines.len() == 0 {
        Seq::empty()
    } else {
        flat(lines.drop_last()) + lines_for(lines.last().0, lines.last().1)
    }
}

/// Header lines, one after the other.
pub fn flatten(headers: &Vec<(String, Vec<String>)>) -> (r: Vec<(String, String)>)
    ensures
        lookup::pairs(r@) == flat(record::header_lines(headers@)),
{
    let ghost all = record::header_lines(headers@);
    let mut out: Vec<(String, String)> = Vec::new();
    let mut i: usize = 0;
    proof {
        assert(lookup::pairs(out@) =~= flat(all.take(0)));
    }
    while i < headers.len()
        invariant
            i <= headers@.len(),
            all == record::header_lines(headers@),
            lookup::pairs(out@) == flat(all.take(i as int)),
        decreases headers@.len() - i,
    {
        let h = &headers[i];
        let ghost before = lookup::pairs(out@);
        let ghost name = h.0@;
        let ghost values = record::texts(h.1@);
        let mut k: usize = 0;
        proof {
            assert(lookup::pairs(out@) =~= before + lines_for(name, values.take(0)));
        }
        while k < h.1.len()
            invariant
                k <= h.1@.len(),
                name == h.0@,
                values == record::texts(h.1@),
                lookup::pairs(out@) == before + lines_for(name, values.take(k as int)),
            decreases h.1@.len() - k,
        {
            let ghost had = out@;
            out.push((h.0.as_str().to_owned(), h.1[k].as_str().to_owned()));
            proof {
                assert(lines_for(name, values.take(k + 1)) =~= lines_for(
                    name,
                    values.take(k as int),
                ).push((name, values[k as int])));
                assert(lookup::pairs(out@) =~= lookup::pairs(had).push((name, values[k as int])));
                assert(lookup::pairs(out@) =~= before + lines_for(name, values.take(k + 1)));
            }
            k += 1;
        }
        proof {
            assert(all.take(i + 1).drop_last() =~= all.take(i as int));
            assert(all.take(i + 1).last() == all[i as int]);
            assert(values.take(values.len() as int) =~= values);
        }
        i += 1;
    }
    proof {
        assert(all.take(all.len() as int) =~= all);
    }
    out
}

/// A configured body as text: a string as it is, any other value as JSON.
pub open spec fn text_of_body(body: Option<JsonModel>) -> Seq<char> {
    match body {
        Some(JsonModel::Text(s)) => s,
        Some(m) => json::json_text(m),
        None => Seq::empty(),
    }
}

/// A configured body, where there is one.
pub open spec fn body_model(body: Option<Json>) -> Option<JsonModel> {
    match body {
        Some(j) => Some(j.model()),
        None => None,
    }
}

/// A configured body as text.
pub fn body_text(body: &Option<Json>) -> (r: String)
    ensures
        r@ == text_of_body(body_model(*body)),
{
    match body {
        Some(j) => match j.as_text() {
            Some(s) => s.as_str().to_owned(),
            None => j.to_text(),
        },
        None => {
            let r = String::new();
            proof {
                assert(r@ =~= Seq::<char>::empty());
            }
            r
        },
    }
}

/// What a fixed response starts as.
pub open spec fn initial_parts(is: IsResponse) -> PartsModel {
    PartsModel {
        status: is.status_code,
        headers: record::header_lines(is.headers@),
        body: text_of_body(body_model(is.body)),
    }
}

/// What a fixed response starts as.
pub fn parts_of(is: &IsResponse) -> (r: ServedParts)
    ensures
        r@ == initial_parts(*is),
{
    ServedParts {
        status: is.status_code,
        headers: record::copy_headers(&is.headers),
        body: body_text(&is.body),
    }
}

/// A text response.
pub open spec fn text_response(parts: PartsModel) -> ResponseModel {
    responses::plain(
        parts.status,
        flat(parts.headers).push(responses::imposter_flag()),
        encode_utf8(parts.body),
    )
}

/// A response whose body is base64 of what is served; `decoded` is what the body decodes to. A body
/// that is no base64 fails the response where behaviors are strict; else it is served as it stands,
/// and a header says so.
pub open spec fn served_decoded(
    parts: PartsModel,
    decoded: Result<Seq<u8>, Seq<char>>,
    strict: bool,
) -> ResponseModel {
    let headers = flat(parts.headers).push(responses::imposter_flag());
    match decoded {
        Ok(bytes) => responses::plain(parts.status, headers, bytes),
        Err(e) => if strict {
            responses::marked_failure(
                500,
                "x-rift-binary-error"@,
                "binary base64 decode failed (strictBehaviors): "@ + e,
            )
        } else {
            responses::plain(
                parts.status,
                headers.push(responses::flag("x-rift-binary-error"@)),
                encode_utf8(parts.body),
            )
        },
    }
}

/// A response whose body is base64 of what is served.
pub open spec fn binary_response(parts: PartsModel, strict: bool) -> ResponseModel {
    served_decoded(parts, base64_bytes(parts.body), strict)
}

/// A response as it is served.
pub open spec fn finished(parts: PartsModel, mode: ResponseMode, strict: bool) -> ResponseModel {
    match mode {
        ResponseMode::Text => text_response(parts),
        ResponseMode::Binary => binary_response(parts, strict),
    }
}

fn flagged(headers: Vec<(String, String)>, name: &str) -> (r: Vec<(String, String)>)
    ensures
        lookup::pairs(r@) == lookup::pairs(headers@).push(responses::flag(name@)),
{
    let mut out = headers;
    let ghost had = out@;
    out.push((name.to_owned(), "true".to_owned()));
    proof {
        assert(lookup::pairs(out@) =~= lookup::pairs(had).push(responses::flag(name@)));
    }
    out
}

/// A response whose body is base64 of what is served; `decoded` is what the body decodes to.
pub fn serve_decoded(parts: &ServedParts, decoded: Result<Vec<u8>, String>, strict: bool) -> (r:
    ServedResponse)
    ensures
        r@ == served_decoded(parts@, decoding(decoded), strict),
{
    let lines = flagged(flatten(&parts.headers), "x-rift-imposter");
    match decoded {
        Ok(bytes) => ServedResponse {
            status: parts.status,
            headers: lines,
            body: bytes,
            fault: None,
        },
        Err(e) => {
            if strict {
                let mut m: String = "binary base64 decode failed (strictBehaviors): ".to_owned();
                m.append(e.as_str());
                return responses::marked_failure_response(500, "x-rift-binary-error", m.as_str());
            }
            ServedResponse {
                status: parts.status,
                headers: flagged(lines, "x-rift-binary-error"),
                body: fault::bytes_of(parts.body.as_str()),
                fault: None,
            }
        },
    }
}

/// A response as it is served.
pub fn finish(parts: &ServedParts, mode: ResponseMode, strict: bool) -> (r: ServedResponse)
    ensures
        r@ == finished(parts@, mode, strict),
{
    match mode {
        ResponseMode::Text => ServedResponse {
            status: parts.status,
            headers: flagged(flatten(&parts.headers), "x-rift-imposter"),
            body: fault::bytes_of(parts.body.as_str()),
            fault: None,
        },
        ResponseMode::Binary => serve_decoded(parts, decode_base64(parts.body.as_str()), strict),
    }
}

/// A response is served with the bytes that its body stands for.
pub proof fn law_bodies_are_served_as_their_bytes(
    parts: PartsModel,
    mode: ResponseMode,
    strict: bool,
    bytes: Seq<u8>,
)
    requires
        bytes_behind(parts.body, mode) == Ok::<Seq<u8>, Seq<char>>(bytes),
    ensures
        finished(parts, mode, strict).body == bytes,
        finished(parts, mode, strict).status == parts.status,
{
}

/// What a body decodes to, or the body as it stands.
pub open spec fn decoded_or_raw(body: Seq<char>, decoded: Result<Seq<u8>, Seq<char>>) -> Seq<u8> {
    match decoded {
        Ok(bytes) => bytes,
        Err(_) => encode_utf8(body),
    }
}

/// What a body decodes to, or the body as it stands.
pub fn bytes_or_raw(body: &str, decoded: Result<Vec<u8>, String>) -> (r: Vec<u8>)
    ensures
        r@ == decoded_or_raw(body@, decoding(decoded)),
{
    match decoded {
        Ok(bytes) => bytes,
        Err(_) => fault::bytes_of(body),
    }
}

/// What an unmatched request is answered where a default is configured; `body` is the default's
/// body as text. A base64 body that does not decode is served as it stands.
pub open spec fn default_answer(default: IsResponse, body: Seq<char>) -> ResponseModel {
    responses::plain(
        default.status_code,
        flat(record::header_lines(default.headers@)).push(responses::imposter_flag()).push(
            responses::flag("x-rift-default-response"@),
        ),
        match default.mode {
            ResponseMode::Text => encode_utf8(body),
            ResponseMode::Binary => decoded_or_raw(body, base64_bytes(body)),
        },
    )
}

/// What an unmatched request is answered where a default is configured.
pub fn default_response(default: &IsResponse, body: &str) -> (r: ServedResponse)
    ensures
        r@ == default_answer(*default, body@),
        r.status == default.status_code,
        default.mode == ResponseMode::Text ==> r.body@ == encode_utf8(body@),
        default.mode == ResponseMode::Binary && base64_bytes(body@) is Ok ==> r.body@
            == base64_bytes(body@)->Ok_0,
{
    let lines = flagged(flatten(&default.headers), "x-rift-imposter");
    let lines = flagged(lines, "x-rift-default-response");
    let bytes: Vec<u8> = match default.mode {
        ResponseMode::Text => fault::bytes_of(body),
        ResponseMode::Binary => bytes_or_raw(body, decode_base64(body)),
    };
    ServedResponse { status: default.status_code, headers: lines, body: bytes, fault: None }
}

proof fn lemma_flat_has_lines(lines: Seq<(Seq<char>, Seq<Seq<char>>)>, i: int, j: int)
    requires
        0 <= i < lines.len(),
        0 <= j < lines[i].1.len(),
    ensures
        flat(lines).contains((lines[i].0, lines[i].1[j])),
    decreases lines.len(),
{
    let rest = lines.drop_last();
    let e = (lines[i].0, lines[i].1[j]);
    if i < lines.len() - 1 {
        assert(rest[i] == lines[i]);
        lemma_flat_has_lines(rest, i, j);
        let k = choose|k: int| 0 <= k < flat(rest).len() && flat(rest)[k] == e;
        assert(flat(lines)[k] == e);
    } else {
        assert(flat(lines)[flat(rest).len() + j] == e);
    }
}

/// Whether a name has a value among header lines.
pub open spec fn has_line(
    lines: Seq<(Seq<char>, Seq<Seq<char>>)>,
    line: (Seq<char>, Seq<char>),
) -> bool {
    exists|i: int, j: int|
        0 <= i < lines.len() && 0 <= j < lines[i].1.len() && line == (
            lines[i].0,
            #[trigger] lines[i].1[j],
        )
}

proof fn lemma_flat_has_no_others(lines: Seq<(Seq<char>, Seq<Seq<char>>)>, k: int)
    requires
        0 <= k < flat(lines).len(),
    ensures
        has_line(lines, flat(lines)[k]),
    decreases lines.len(),
{
    let rest = lines.drop_last();
    if k < flat(rest).len() {
        lemma_flat_has_no_others(rest, k);
        let (i, j) = choose|i: int, j: int|
            0 <= i < rest.len() && 0 <= j < rest[i].1.len() && flat(rest)[k] == (
                rest[i].0,
                #[trigger] rest[i].1[j],
            );
        assert(rest[i] == lines[i]);
        assert(flat(lines)[k] == (lines[i].0, lines[i].1[j]));
    } else {
        let i = lines.len() - 1;
        let j = k - flat(rest).len();
        assert(flat(lines)[k] == (lines[i].0, lines[i].1[j]));
    }
}

/// Header lines are served one by one: every value of every name stands on a line of its own, the
/// names and each name's values in the order they were given, and there are no other lines.
pub proof fn law_every_header_value_is_a_line(lines: Seq<(Seq<char>, Seq<Seq<char>>)>)
    ensures
        forall|i: int, j: int|
            0 <= i < lines.len() && 0 <= j < lines[i].1.len() ==> flat(lines).contains(
                (lines[i].0, #[trigger] lines[i].1[j]),
            ),
        forall|k: int| 0 <= k < flat(lines).len() ==> has_line(lines, #[trigger] flat(lines)[k]),
        lines.len() == 0 ==> flat(lines).len() == 0,
{
    assert forall|i: int, j: int|
        0 <= i < lines.len() && 0 <= j < lines[i].1.len() implies flat(lines).contains(
        (lines[i].0, #[trigger] lines[i].1[j]),
    ) by {
        lemma_flat_has_lines(lines, i, j);
    }
    assert forall|k: int| 0 <= k < flat(lines).len() implies has_line(
        lines,
        #[trigger] flat(lines)[k],
    ) by {
        lemma_flat_has_no_others(lines, k);
    }
}

/// One more name at the end adds its lines at the end, in order, and changes none before them.
pub proof fn law_header_lines_keep_their_order(
    lines: Seq<(Seq<char>, Seq<Seq<char>>)>,
    name: Seq<char>,
    values: Seq<Seq<char>>,
)
    ensures
        ({
            let before = flat(lines);
            let after = flat(lines.push((name, values)));
            &&& after.len() == before.len() + values.len()
            &&& forall|k: int| 0 <= k < before.len() ==> #[trigger] after[k] == before[k]
            &&& forall|j: int|
                0 <= j < values.len() ==> #[trigger] after[before.len() + j] == (name, values[j])
        }),
{
    assert(lines.push((name, values)).drop_last() =~= lines);
}

/// A default response is served under its own status, with every one of its header lines and the
/// two that say what it is. Its bytes are the UTF-8 bytes of the body that was handed in; in binary
/// mode they are those that the body decodes to, and where it decodes to none the UTF-8 bytes.
pub proof fn law_default_bodies_are_served(default: IsResponse, body: Seq<char>)
    ensures
        ({
            let served = default_answer(default, body);
            let lines = record::header_lines(default.headers@);
            &&& served.status == default.status_code
            &&& served.fault is None
            &&& default.mode == ResponseMode::Text ==> served.body == encode_utf8(body)
            &&& default.mode == ResponseMode::Binary ==> (match base64_bytes(body) {
                Ok(bytes) => served.body == bytes,
                Err(_) => served.body == encode_utf8(body),
            })
            &&& forall|i: int, j: int|
                0 <= i < lines.len() && 0 <= j < lines[i].1.len() ==> served.headers.contains(
                    (lines[i].0, #[trigger] lines[i].1[j]),
                )
            &&& served.headers.contains(("x-rift-imposter"@, "true"@))
            &&& served.headers.contains(("x-rift-default-response"@, "true"@))
            &&& served.headers.len() == flat(lines).len() + 2
        }),
{
    let served = default_answer(default, body);
    let lines = record::header_lines(default.headers@);
    let n = flat(lines).len() as int;
    assert(served.headers[n] == ("x-rift-imposter"@, "true"@));
    assert(served.headers[n + 1] == ("x-rift-default-response"@, "true"@));
    assert forall|i: int, j: int|
        0 <= i < lines.len() && 0 <= j < lines[i].1.len() implies served.headers.contains(
        (lines[i].0, #[trigger] lines[i].1[j]),
    ) by {
        lemma_flat_has_lines(lines, i, j);
        let e = (lines[i].0, lines[i].1[j]);
        let k = choose|k: int| 0 <= k < flat(lines).len() && flat(lines)[k] == e;
        assert(served.headers[k] == e);
    }
}

/// A response that is served keeps its status and every one of its header lines, and says that an
/// imposter sent it.
pub proof fn law_served_responses_keep_their_lines(
    parts: PartsModel,
    mode: ResponseMode,
    strict: bool,
)
    requires
        mode == ResponseMode::Binary && strict ==> base64_bytes(parts.body) is Ok,
    ensures
        ({
            let served = finished(parts, mode, strict);
            &&& served.status == parts.status
            &&& served.fault is None
            &&& served.headers.contains(("x-rift-imposter"@, "true"@))
            &&& forall|i: int, j: int|
                0 <= i < parts.headers.len() && 0 <= j < parts.headers[i].1.len()
                    ==> served.headers.contains(
                    (parts.headers[i].0, #[trigger] parts.headers[i].1[j]),
                )
            &&& mode == ResponseMode::Text ==> served.body == encode_utf8(parts.body)
            &&& mode == ResponseMode::Binary ==> (match base64_bytes(parts.body) {
                Ok(bytes) => served.body == bytes && served.headers.len() == flat(
                    parts.headers,
                ).len() + 1,
                Err(_) => served.body == encode_utf8(parts.body) && served.headers.contains(
                    ("x-rift-binary-error"@, "true"@),
                ),
            })
        }),
{
    let served = finished(parts, mode, strict);
    let lines = parts.headers;
    let n = flat(lines).len() as int;
    assert(served.headers[n] == ("x-rift-imposter"@, "true"@));
    if mode == ResponseMode::Binary && base64_bytes(parts.body) is Err {
        assert(served.headers[n + 1] == ("x-rift-binary-error"@, "true"@));
    }
    assert forall|i: int, j: int|
        0 <= i < lines.len() && 0 <= j < lines[i].1.len() implies served.headers.contains(
        (lines[i].0, #[trigger] lines[i].1[j]),
    ) by {
        lemma_flat_has_lines(lines, i, j);
        let e = (lines[i].0, lines[i].1[j]);
        let k = choose|k: int| 0 <= k < flat(lines).len() && flat(lines)[k] == e;
        assert(served.headers[k] == e);
    }
}

/// Where behaviors are strict, a binary body that does not decode fails the response: none of its
/// own bytes is served, and the failure says why.
pub proof fn law_strict_binary_failures_are_told(parts: PartsModel, why: Seq<char>)
    requires
        base64_bytes(parts.body) == Err::<Seq<u8>, Seq<char>>(why),
    ensures
        ({
            let served = finished(parts, ResponseMode::Binary, true);
            &&& served.status == 500
            &&& served.fault is None
            &&& served.headers.contains(("x-rift-binary-error"@, "true"@))
            &&& served.headers.contains(("x-rift-imposter"@, "true"@))
            &&& served.body == responses::status_bytes(
                500,
                "binary base64 decode failed (strictBehaviors): "@ + why,
            )
        }),
{
    let served = finished(parts, ResponseMode::Binary, true);
    assert(served.headers[0] == ("x-rift-imposter"@, "true"@));
    assert(served.headers[1] == ("x-rift-binary-error"@, "true"@));
}

/// A request's bytes come back from what its body is held as: a text body holds them as its UTF-8
/// form, any other as base64, and only a request without bytes has no body.
pub proof fn law_bodies_hold_their_bytes(bytes: Seq<u8>)
    ensures
        bytes.len() == 0 <==> body_of(bytes).0 is None,
        bytes.len() > 0 && valid_utf8(bytes) ==> body_of(bytes).1 == ResponseMode::Text
            && body_of(bytes).0 is Some && encode_utf8(body_of(bytes).0->0) == bytes,
        bytes.len() > 0 && !valid_utf8(bytes) ==> body_of(bytes).1 == ResponseMode::Binary
            && body_of(bytes).0 == Some(base64_text(bytes)),
        bytes.len() > 0 && valid_utf8(bytes) ==> bytes_behind(
            body_of(bytes).0->0,
            body_of(bytes).1,
        ) == Ok::<Seq<u8>, Seq<char>>(bytes),
{
    if valid_utf8(bytes) {
        decode_utf8_encode_utf8(bytes);
    }
}

/// A fixed response starts with its own status and header lines, and with its body as text: a
/// string without quotes, any other value as JSON, and nothing where there is none.
pub proof fn law_fixed_responses_start_as_configured(is: IsResponse, s: Seq<char>, m: JsonModel)
    ensures
        initial_parts(is).status == is.status_code,
        initial_parts(is).headers == record::header_lines(is.headers@),
        is.body is None ==> initial_parts(is).body.len() == 0,
        is.body is Some && is.body->0.model() == JsonModel::Text(s) ==> initial_parts(is).body
            == s,
        is.body is Some && is.body->0.model() == m && m !is Text ==> initial_parts(is).body
            == json::json_text(m),
{
}

} // verus!
