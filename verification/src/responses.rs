//! Responses as they are served, and the fixed ones that stand for failures.

use crate::fault;
use crate::fault::TcpFaultKind;
use crate::json;
use crate::json::{Json, JsonModel, JsonObject};
use crate::lookup;
use crate::predicate::MatchError;
use crate::proxy_run;
use crate::proxy_run::RecordedResponse;
use crate::record;
use crate::text;
use vstd::prelude::*;
use vstd::utf8::*;

verus! {

/// The largest request body that is taken.
pub const MAX_REQUEST_BODY_SIZE: usize = 10485760;

/// A response as it is served.
#[derive(Debug)]
pub struct ServedResponse {
    pub status: u16,
    /// One entry per header line.
    pub headers: Vec<(String, String)>,
    pub body: Vec<u8>,
    /// The connection fault that takes the response's place.
    pub fault: Option<TcpFaultKind>,
}

/// A response as contracts see it.
pub struct ResponseModel {
    pub status: u16,
    pub headers: Seq<(Seq<char>, Seq<char>)>,
    pub body: Seq<u8>,
    pub fault: Option<TcpFaultKind>,
}

impl ServedResponse {
    /// The response as contracts see it.
    pub open spec fn view(&self) -> ResponseModel {
        ResponseModel {
            status: self.status,
            headers: lookup::pairs(self.headers@),
            body: self.body@,
            fault: self.fault,
        }
    }
}

/// The fault that takes a response's place, by its canonical name.
pub fn tcp_fault_carrier(response: &ServedResponse) -> (r: Option<&'static str>)
    ensures
        (match r {
            Some(n) => response.fault is Some && n@ == response.fault->0.name(),
            None => response.fault is None,
        }),
{
    match response.fault {
        Some(kind) => Some(kind.canonical_name()),
        None => None,
    }
}

/// A response without a fault.
pub open spec fn plain(
    status: u16,
    headers: Seq<(Seq<char>, Seq<char>)>,
    body: Seq<u8>,
) -> ResponseModel {
    ResponseModel { status, headers, body, fault: None }
}

/// A header that says yes.
pub open spec fn flag(name: Seq<char>) -> (Seq<char>, Seq<char>) {
    (name, "true"@)
}

/// The header that announces JSON.
pub open spec fn json_type() -> (Seq<char>, Seq<char>) {
    ("content-type"@, "application/json"@)
}

/// The header of every response of an imposter.
pub open spec fn imposter_flag() -> (Seq<char>, Seq<char>) {
    flag("x-rift-imposter"@)
}

/// The document that tells of a failure.
pub open spec fn error_document(code: Seq<char>, message: Seq<char>) -> JsonModel {
    JsonModel::Object(
        seq![
            (
                "errors"@,
                JsonModel::Array(
                    seq![
                        JsonModel::Object(
                            seq![
                                ("code"@, JsonModel::Text(code)),
                                ("message"@, JsonModel::Text(message)),
                            ],
                        ),
                    ],
                ),
            ),
        ],
    )
}

/// The body that tells of a failure.
pub open spec fn error_bytes(code: Seq<char>, message: Seq<char>) -> Seq<u8> {
    encode_utf8(json::json_text(error_document(code, message)))
}

/// The body that tells of a failure whose code is the status.
pub open spec fn status_bytes(status: u16, message: Seq<char>) -> Seq<u8> {
    error_bytes(text::decimal(status as nat), message)
}

fn line(name: &str, value: &str) -> (r: (String, String))
    ensures
        r.0@ == name@,
        r.1@ == value@,
{
    (name.to_owned(), value.to_owned())
}

fn error_json(code: &str, message: &str) -> (r: Vec<u8>)
    ensures
        r@ == error_bytes(code@, message@),
{
    proof {
        reveal_strlit("code");
        reveal_strlit("message");
        assert("code"@.len() == 4);
        assert("message"@.len() == 7);
    }
    let mut one: JsonObject = JsonObject::new();
    one.insert("code".to_owned(), Json::text(code));
    one.insert("message".to_owned(), Json::text(message));
    proof {
        assert(one@ =~= seq![
            ("code"@, JsonModel::Text(code@)),
            ("message"@, JsonModel::Text(message@)),
        ]) by {
            let first = seq![("code"@, JsonModel::Text(code@))];
            assert(json::with_entry(Seq::<(Seq<char>, JsonModel)>::empty(), "code"@, JsonModel::Text(
                code@,
            )) =~= first);
            assert(first.drop_first() =~= Seq::<(Seq<char>, JsonModel)>::empty());
            assert(json::with_entry(
                Seq::<(Seq<char>, JsonModel)>::empty(),
                "message"@,
                JsonModel::Text(message@),
            ) =~= seq![("message"@, JsonModel::Text(message@))]);
        }
    }
    let doc: Json = Json::object_with("errors", Json::array_of(Json::object(one)));
    fault::bytes_of(doc.to_text().as_str())
}

/// The body that tells of a failure whose code is the status.
pub fn error_body(status: u16, message: &str) -> (r: Vec<u8>)
    ensures
        r@ == status_bytes(status, message@),
{
    error_json(text::decimal_text(status as u64).as_str(), message)
}

/// What a disabled imposter answers.
pub open spec fn disabled() -> ResponseModel {
    plain(
        503,
        seq![flag("x-rift-imposter-disabled"@), json_type()],
        status_bytes(503, "Imposter is disabled"@),
    )
}

/// What a preflight request is answered.
pub open spec fn preflight() -> ResponseModel {
    plain(200, seq![imposter_flag()], Seq::empty())
}

/// A failure of this imposter, told with its status.
pub open spec fn failure(status: u16, message: Seq<char>) -> ResponseModel {
    plain(status, seq![imposter_flag(), json_type()], status_bytes(status, message))
}

/// A failure of this imposter with a marker, told with its status.
pub open spec fn marked_failure(status: u16, marker: Seq<char>, message: Seq<char>) -> ResponseModel {
    plain(
        status,
        seq![imposter_flag(), flag(marker), json_type()],
        status_bytes(status, message),
    )
}

fn json_line() -> (r: (String, String))
    ensures
        r.0@ == json_type().0,
        r.1@ == json_type().1,
{
    line("content-type", "application/json")
}

fn imposter_line() -> (r: (String, String))
    ensures
        r.0@ == imposter_flag().0,
        r.1@ == imposter_flag().1,
{
    line("x-rift-imposter", "true")
}

/// What a disabled imposter answers.
pub fn disabled_response() -> (r: ServedResponse)
    ensures
        r@ == disabled(),
{
    let headers: Vec<(String, String)> = vec![
        line("x-rift-imposter-disabled", "true"),
        json_line(),
    ];
    proof {
        assert(lookup::pairs(headers@) =~= seq![flag("x-rift-imposter-disabled"@), json_type()]);
    }
    ServedResponse { status: 503, headers, body: error_body(503, "Imposter is disabled"), fault: None }
}

/// What a preflight request is answered.
pub fn preflight_response() -> (r: ServedResponse)
    ensures
        r@ == preflight(),
{
    let headers: Vec<(String, String)> = vec![imposter_line()];
    let body: Vec<u8> = Vec::new();
    proof {
        assert(lookup::pairs(headers@) =~= seq![imposter_flag()]);
        assert(body@ =~= Seq::<u8>::empty());
    }
    ServedResponse { status: 200, headers, body, fault: None }
}

/// A failure of this imposter, told with its status.
pub fn failure_response(status: u16, message: &str) -> (r: ServedResponse)
    ensures
        r@ == failure(status, message@),
{
    let headers: Vec<(String, String)> = vec![imposter_line(), json_line()];
    proof {
        assert(lookup::pairs(headers@) =~= seq![imposter_flag(), json_type()]);
    }
    ServedResponse { status, headers, body: error_body(status, message), fault: None }
}

/// A failure of this imposter with a marker, told with its status.
pub fn marked_failure_response(status: u16, marker: &str, message: &str) -> (r: ServedResponse)
    ensures
        r@ == marked_failure(status, marker@, message@),
{
    let headers: Vec<(String, String)> = vec![imposter_line(), line(marker, "true"), json_line()];
    proof {
        assert(lookup::pairs(headers@) =~= seq![imposter_flag(), flag(marker@), json_type()]);
    }
    ServedResponse { status, headers, body: error_body(status, message), fault: None }
}

/// What a request is answered whose body is too large.
pub open spec fn too_large() -> ResponseModel {
    failure(
        413,
        "Request body exceeds maximum size of "@ + text::decimal(MAX_REQUEST_BODY_SIZE as nat)
            + " bytes"@,
    )
}

/// What a request is answered whose body is too large.
pub fn body_too_large_response() -> (r: ServedResponse)
    ensures
        r@ == too_large(),
{
    let mut m: String = "Request body exceeds maximum size of ".to_owned();
    m.append(text::decimal_text(MAX_REQUEST_BODY_SIZE as u64).as_str());
    m.append(" bytes");
    failure_response(413, m.as_str())
}

/// What a request is answered whose body could not be read: a failure of the client's
/// transmission, not of the server.
pub fn body_read_error_response() -> (r: ServedResponse)
    ensures
        r@ == failure(400, "Failed to read request body"@),
{
    failure_response(400, "Failed to read request body")
}

/// What a debug request is answered whose matching broke off.
pub fn debug_matching_error_response() -> (r: ServedResponse)
    ensures
        r@ == failure(500, "Debug matching failed"@),
{
    failure_response(500, "Debug matching failed")
}

/// What a debug request is answered whose matching took too long.
pub open spec fn debug_timeout() -> ResponseModel {
    marked_failure(504, "x-rift-script-timeout"@, "Debug matching timed out"@)
}

/// What a debug request is answered whose matching took too long.
pub fn debug_matching_timeout_response() -> (r: ServedResponse)
    ensures
        r@ == debug_timeout(),
{
    marked_failure_response(504, "x-rift-script-timeout", "Debug matching timed out")
}

/// What is answered where a response could not be built from its own headers.
pub fn build_failure_response() -> (r: ServedResponse)
    ensures
        r@ == failure(500, "Response build error"@),
{
    failure_response(500, "Response build error")
}

/// What is answered where a template failed.
pub open spec fn template_failure(e: Seq<char>) -> ResponseModel {
    marked_failure(500, "x-rift-template-error"@, "template rendering failed: "@ + e)
}

/// What is answered where a template failed.
pub fn template_error_response(e: &str) -> (r: ServedResponse)
    ensures
        r@ == template_failure(e@),
{
    let mut m: String = "template rendering failed: ".to_owned();
    m.append(e);
    marked_failure_response(500, "x-rift-template-error", m.as_str())
}

/// What is answered where an injected script took too long: a failure that may pass.
pub open spec fn inject_timeout(code: Seq<char>, message: Seq<char>) -> ResponseModel {
    plain(
        504,
        seq![
            imposter_flag(),
            flag("x-rift-inject-error"@),
            flag("x-rift-script-timeout"@),
            json_type(),
        ],
        error_bytes(code, message),
    )
}

/// What is answered where an injected script took too long.
pub fn inject_timeout_response(code: &str, message: &str) -> (r: ServedResponse)
    ensures
        r@ == inject_timeout(code@, message@),
{
    let headers: Vec<(String, String)> = vec![
        imposter_line(),
        line("x-rift-inject-error", "true"),
        line("x-rift-script-timeout", "true"),
        json_line(),
    ];
    proof {
        assert(lookup::pairs(headers@) =~= seq![
            imposter_flag(),
            flag("x-rift-inject-error"@),
            flag("x-rift-script-timeout"@),
            json_type(),
        ]);
    }
    ServedResponse { status: 504, headers, body: error_json(code, message), fault: None }
}

/// What is answered where an injected script failed: a failure of the configuration.
pub open spec fn inject_failure(code: Seq<char>, message: Seq<char>) -> ResponseModel {
    plain(
        400,
        seq![imposter_flag(), flag("x-rift-inject-error"@), json_type()],
        error_bytes(code, message),
    )
}

/// What is answered where an injected script failed.
pub fn inject_error_response(code: &str, message: &str) -> (r: ServedResponse)
    ensures
        r@ == inject_failure(code@, message@),
{
    let headers: Vec<(String, String)> = vec![
        imposter_line(),
        line("x-rift-inject-error", "true"),
        json_line(),
    ];
    proof {
        assert(lookup::pairs(headers@) =~= seq![
            imposter_flag(),
            flag("x-rift-inject-error"@),
            json_type(),
        ]);
    }
    ServedResponse { status: 400, headers, body: error_json(code, message), fault: None }
}

/// What went wrong, without what lies behind it.
pub open spec fn outermost(chain: Seq<Seq<char>>) -> Seq<char> {
    if chain.len() == 0 {
        Seq::empty()
    } else {
        chain[0]
    }
}

/// What is answered where an upstream could not be reached: what went wrong, and nothing of what
/// lies behind it.
pub open spec fn upstream_failure(
    chain: Seq<Seq<char>>,
    marker: Seq<char>,
    prefix: Seq<char>,
) -> ResponseModel {
    marked_failure(502, marker, prefix + ": "@ + outermost(chain))
}

/// What is answered where an upstream could not be reached. `chain` is what went wrong, followed by
/// what lies behind it.
pub fn upstream_error_response(chain: &Vec<String>, marker: &str, prefix: &str) -> (r:
    ServedResponse)
    ensures
        r@ == upstream_failure(record::texts(chain@), marker@, prefix@),
{
    let mut m: String = prefix.to_owned();
    m.append(": ");
    if chain.len() > 0 {
        m.append(chain[0].as_str());
    } else {
        proof {
            assert(m@ =~= prefix@ + ": "@ + Seq::<char>::empty());
        }
    }
    marked_failure_response(502, marker, m.as_str())
}

/// What is reported of a failure to those who run the server: all that lies behind it.
pub fn failure_report(context: &str, chain: &Vec<String>) -> (r: String)
    ensures
        r@ == context@ + ": "@ + record::joined(record::texts(chain@), ": "@),
{
    let mut m: String = context.to_owned();
    m.append(": ");
    m.append(record::join_texts(chain, ": ").as_str());
    m
}

/// What lies behind a failure does not reach the client: the answers are the same, whatever it is.
pub proof fn law_causes_are_withheld(
    a: Seq<Seq<char>>,
    b: Seq<Seq<char>>,
    marker: Seq<char>,
    prefix: Seq<char>,
)
    requires
        outermost(a) == outermost(b),
    ensures
        upstream_failure(a, marker, prefix) == upstream_failure(b, marker, prefix),
{
}

/// What is answered where a store of the imposter failed.
pub fn backend_error_response(reason: &str) -> (r: ServedResponse)
    ensures
        r@ == failure(500, reason@),
{
    failure_response(500, reason)
}

/// Why no stub could be found.
#[derive(Debug)]
pub enum MatcherFailure {
    /// A script took too long.
    Timeout(String),
    Failed(MatchError),
}

/// What is answered where no stub could be found: a script that took too long may be tried again,
/// one that failed is a failure of the configuration, and all else is the server's.
pub open spec fn matcher_failure(e: MatcherFailure) -> ResponseModel {
    match e {
        MatcherFailure::Timeout(m) => inject_timeout("predicate injection timeout"@, m@),
        MatcherFailure::Failed(MatchError::Inject(m)) => inject_failure(
            "invalid predicate injection"@,
            m@,
        ),
        MatcherFailure::Failed(MatchError::Store(m)) => failure(500, m@),
        MatcherFailure::Failed(MatchError::Unresolved(_)) => failure(
            500,
            "a lookup was left unanswered"@,
        ),
    }
}

/// What is answered where no stub could be found.
pub fn matcher_error_response(e: &MatcherFailure) -> (r: ServedResponse)
    ensures
        r@ == matcher_failure(*e),
{
    match e {
        MatcherFailure::Timeout(m) => inject_timeout_response(
            "predicate injection timeout",
            m.as_str(),
        ),
        MatcherFailure::Failed(MatchError::Inject(m)) => inject_error_response(
            "invalid predicate injection",
            m.as_str(),
        ),
        MatcherFailure::Failed(MatchError::Store(m)) => backend_error_response(m.as_str()),
        MatcherFailure::Failed(MatchError::Unresolved(_)) => backend_error_response(
            "a lookup was left unanswered",
        ),
    }
}

/// What a `fault` response is served as: the fault, by any of its names; an unknown name is an
/// error, never a dropped connection.
pub open spec fn fault_answer(name: Seq<char>) -> ResponseModel {
    match fault::fault_named(name) {
        Some(kind) => ResponseModel {
            status: 502,
            headers: seq![("x-rift-fault"@, name)],
            body: Seq::empty(),
            fault: Some(kind),
        },
        None => plain(
            500,
            seq![("x-rift-fault"@, name)],
            encode_utf8("Unknown fault: "@ + name),
        ),
    }
}

/// What a `fault` response is served as.
pub fn handle_fault_response(name: &str) -> (r: ServedResponse)
    ensures
        r@ == fault_answer(name@),
{
    let headers: Vec<(String, String)> = vec![line("x-rift-fault", name)];
    proof {
        assert(lookup::pairs(headers@) =~= seq![("x-rift-fault"@, name@)]);
    }
    match TcpFaultKind::parse(name) {
        Some(kind) => {
            let body: Vec<u8> = Vec::new();
            proof {
                assert(body@ =~= Seq::<u8>::empty());
            }
            ServedResponse { status: 502, headers, body, fault: Some(kind) }
        },
        None => {
            let mut m: String = "Unknown fault: ".to_owned();
            m.append(name);
            ServedResponse { status: 500, headers, body: fault::bytes_of(m.as_str()), fault: None }
        },
    }
}

/// What an unmatched request is answered without a default.
pub open spec fn no_match() -> ResponseModel {
    plain(200, seq![imposter_flag(), flag("x-rift-no-match"@)], Seq::empty())
}

/// What an unmatched request is answered without a default.
pub fn no_match_response() -> (r: ServedResponse)
    ensures
        r@ == no_match(),
{
    let headers: Vec<(String, String)> = vec![imposter_line(), line("x-rift-no-match", "true")];
    let body: Vec<u8> = Vec::new();
    proof {
        assert(lookup::pairs(headers@) =~= seq![imposter_flag(), flag("x-rift-no-match"@)]);
        assert(body@ =~= Seq::<u8>::empty());
    }
    ServedResponse { status: 200, headers, body, fault: None }
}

/// Whether a header belongs to one connection and is not passed on.
pub open spec fn hop_by_hop(name: Seq<char>) -> bool {
    ||| text::text_eq(name, "connection"@, false)
    ||| text::text_eq(name, "keep-alive"@, false)
    ||| text::text_eq(name, "proxy-authenticate"@, false)
    ||| text::text_eq(name, "proxy-authorization"@, false)
    ||| text::text_eq(name, "te"@, false)
    ||| text::text_eq(name, "trailers"@, false)
    ||| text::text_eq(name, "transfer-encoding"@, false)
    ||| text::text_eq(name, "upgrade"@, false)
}

fn is_hop_by_hop(name: &str) -> (r: bool)
    ensures
        r == hop_by_hop(name@),
{
    text::texts_equal(name, "connection", false) || text::texts_equal(name, "keep-alive", false)
        || text::texts_equal(name, "proxy-authenticate", false) || text::texts_equal(
        name,
        "proxy-authorization",
        false,
    ) || text::texts_equal(name, "te", false) || text::texts_equal(name, "trailers", false)
        || text::texts_equal(name, "transfer-encoding", false) || text::texts_equal(
        name,
        "upgrade",
        false,
    )
}

/// The headers that are passed on, in order.
pub open spec fn passed_on(headers: Seq<(Seq<char>, Seq<char>)>) -> Seq<(Seq<char>, Seq<char>)>
    decreases headers.len(),
{
    if headers.len() == 0 {
        Seq::empty()
    } else if hop_by_hop(headers.last().0) {
        passed_on(headers.drop_last())
    } else {
        passed_on(headers.drop_last()).push(headers.last())
    }
}

fn pass_on(headers: Vec<(String, String)>) -> (r: Vec<(String, String)>)
    ensures
        lookup::pairs(r@) == passed_on(lookup::pairs(headers@)),
{
    let ghost all = lookup::pairs(headers@);
    let mut out: Vec<(String, String)> = Vec::new();
    let mut i: usize = 0;
    proof {
        assert(lookup::pairs(out@) =~= passed_on(all.take(0)));
    }
    while i < headers.len()
        invariant
            i <= headers@.len(),
            all == lookup::pairs(headers@),
            lookup::pairs(out@) == passed_on(all.take(i as int)),
        decreases headers@.len() - i,
    {
        let h = &headers[i];
        proof {
            assert(all.take(i + 1).drop_last() =~= all.take(i as int));
            assert(all.take(i + 1).last() == all[i as int]);
        }
        if !is_hop_by_hop(h.0.as_str()) {
            let ghost had = out@;
            out.push((h.0.as_str().to_owned(), h.1.as_str().to_owned()));
            proof {
                assert(lookup::pairs(out@) =~= lookup::pairs(had).push(all[i as int]));
            }
        }
        i += 1;
    }
    proof {
        assert(all.take(all.len() as int) =~= all);
    }
    out
}

fn with_line(headers: Vec<(String, String)>, name: &str, value: &str) -> (r: Vec<(String, String)>)
    ensures
        lookup::pairs(r@) == lookup::pairs(headers@).push((name@, value@)),
{
    let mut out = headers;
    let ghost had = out@;
    out.push(line(name, value));
    proof {
        assert(lookup::pairs(out@) =~= lookup::pairs(had).push((name@, value@)));
    }
    out
}

/// What a proxied response is served as: with its latency, where the proxy keeps it.
pub open spec fn proxied(m: proxy_run::RecordedModel) -> ResponseModel {
    let base = passed_on(m.headers).push(imposter_flag()).push(flag("x-rift-proxy"@));
    plain(
        m.status,
        match m.latency_ms {
            Some(ms) => base.push(("x-rift-proxy-latency"@, text::decimal(ms as nat))),
            None => base,
        },
        m.body,
    )
}

/// What a proxied response is served as.
pub fn proxied_response(reply: RecordedResponse) -> (r: ServedResponse)
    ensures
        r@ == proxied(reply@),
{
    let headers = with_line(pass_on(reply.headers), "x-rift-imposter", "true");
    let headers = with_line(headers, "x-rift-proxy", "true");
    let headers = match reply.latency_ms {
        Some(ms) => with_line(headers, "x-rift-proxy-latency", text::decimal_text(ms).as_str()),
        None => headers,
    };
    ServedResponse { status: reply.status, headers, body: reply.body, fault: None }
}

/// What a forwarded unmatched request is answered.
pub open spec fn default_forwarded(m: proxy_run::RecordedModel) -> ResponseModel {
    plain(
        m.status,
        passed_on(m.headers).push(imposter_flag()).push(flag("x-rift-default-forward"@)),
        m.body,
    )
}

/// What a forwarded unmatched request is answered.
pub fn default_forward_response(reply: RecordedResponse) -> (r: ServedResponse)
    ensures
        r@ == default_forwarded(reply@),
{
    let headers = with_line(pass_on(reply.headers), "x-rift-imposter", "true");
    let headers = with_line(headers, "x-rift-default-forward", "true");
    ServedResponse { status: reply.status, headers, body: reply.body, fault: None }
}

/// What an injected response is served as.
pub open spec fn injected(
    status: u16,
    headers: Seq<(Seq<char>, Seq<char>)>,
    body: Seq<char>,
) -> ResponseModel {
    plain(
        status,
        headers.push(imposter_flag()).push(flag("x-rift-inject"@)),
        encode_utf8(body),
    )
}

/// What an injected response is served as.
pub fn inject_response(status: u16, headers: Vec<(String, String)>, body: &str) -> (r:
    ServedResponse)
    ensures
        r@ == injected(status, lookup::pairs(headers@), body@),
{
    let headers = with_line(headers, "x-rift-imposter", "true");
    let headers = with_line(headers, "x-rift-inject", "true");
    ServedResponse { status, headers, body: fault::bytes_of(body), fault: None }
}

/// Whether a header stands in a list, whatever its case.
pub open spec fn has_header(headers: Seq<(Seq<char>, Seq<char>)>, name: Seq<char>) -> bool {
    lookup::find_entry(headers, name, false) is Some
}

/// A header joins, unless it is there.
pub open spec fn with_missing(
    headers: Seq<(Seq<char>, Seq<char>)>,
    name: Seq<char>,
) -> Seq<(Seq<char>, Seq<char>)> {
    if has_header(headers, name) {
        headers
    } else {
        headers.push((name, "*"@))
    }
}

/// The headers that let any origin read a response; those that are there stay.
pub open spec fn with_cors(headers: Seq<(Seq<char>, Seq<char>)>) -> Seq<(Seq<char>, Seq<char>)> {
    with_missing(
        with_missing(
            with_missing(headers, "access-control-allow-origin"@),
            "access-control-allow-headers"@,
        ),
        "access-control-allow-methods"@,
    )
}

fn add_missing(headers: Vec<(String, String)>, name: &str) -> (r: Vec<(String, String)>)
    ensures
        lookup::pairs(r@) == with_missing(lookup::pairs(headers@), name@),
{
    match lookup::position(&headers, name, false) {
        Some(_) => headers,
        None => with_line(headers, name, "*"),
    }
}

/// Adds the headers that let any origin read a response; those that are there stay.
pub fn inject_cors_headers(response: ServedResponse) -> (r: ServedResponse)
    ensures
        r@ == (ResponseModel { headers: with_cors(response@.headers), ..response@ }),
{
    let headers = add_missing(response.headers, "access-control-allow-origin");
    let headers = add_missing(headers, "access-control-allow-headers");
    let headers = add_missing(headers, "access-control-allow-methods");
    ServedResponse { status: response.status, headers, body: response.body, fault: response.fault }
}

/// Headers that are there are kept as they are: adding is all that happens.
pub proof fn law_cors_headers_only_add(headers: Seq<(Seq<char>, Seq<char>)>)
    ensures
        with_cors(headers).len() >= headers.len(),
        forall|i: int| 0 <= i < headers.len() ==> #[trigger] with_cors(headers)[i] == headers[i],
{
}

/// Whether a character is a control character.
pub open spec fn is_control(c: char) -> bool {
    c as int <= 0x1f || 0x7f <= c as int <= 0x9f
}

/// A text without its control characters.
pub open spec fn without_control(s: Seq<char>) -> Seq<char>
    decreases s.len(),
{
    if s.len() == 0 {
        Seq::empty()
    } else if is_control(s.last()) {
        without_control(s.drop_last())
    } else {
        without_control(s.drop_last()).push(s.last())
    }
}

/// A header value without control characters, so that it cannot end its line.
pub fn sanitize_header_value(value: &str) -> (r: String)
    ensures
        r@ == without_control(value@),
{
    let chars: Vec<char> = text::chars_of(value);
    let mut out: String = String::new();
    let mut i: usize = 0;
    proof {
        assert(out@ =~= without_control(value@.take(0)));
    }
    while i < chars.len()
        invariant
            chars@ == value@,
            i <= chars@.len(),
            out@ == without_control(value@.take(i as int)),
        decreases chars@.len() - i,
    {
        let c: char = chars[i];
        proof {
            assert(value@.take(i + 1).drop_last() =~= value@.take(i as int));
            assert(value@.take(i + 1).last() == c);
        }
        if !(c <= '\u{1f}' || ('\u{7f}' <= c && c <= '\u{9f}')) {
            out.push(c);
        }
        i += 1;
    }
    proof {
        assert(value@.take(value@.len() as int) =~= value@);
    }
    out
}

/// A sanitised value holds no control character, and sanitising it again changes nothing.
pub proof fn law_sanitised_values_are_clean(s: Seq<char>)
    ensures
        forall|i: int| 0 <= i < without_control(s).len() ==> !is_control(#[trigger] without_control(s)[i]),
        without_control(without_control(s)) == without_control(s),
    decreases s.len(),
{
    if s.len() > 0 {
        law_sanitised_values_are_clean(s.drop_last());
        let rest = without_control(s.drop_last());
        if !is_control(s.last()) {
            assert(rest.push(s.last()).drop_last() =~= rest);
        }
    }
}

/// Whether a response tells of a failure in the one form they all have: a JSON document with a code
/// and a message, announced as JSON.
pub open spec fn tells(r: ResponseModel, code: Seq<char>, message: Seq<char>) -> bool {
    &&& r.fault is None
    &&& r.headers.contains(("content-type"@, "application/json"@))
    &&& r.body == encode_utf8(
        json::json_text(
            JsonModel::Object(
                seq![
                    (
                        "errors"@,
                        JsonModel::Array(
                            seq![
                                JsonModel::Object(
                                    seq![
                                        ("code"@, JsonModel::Text(code)),
                                        ("message"@, JsonModel::Text(message)),
                                    ],
                                ),
                            ],
                        ),
                    ),
                ],
            ),
        ),
    )
}

/// Every failure is told under its status, whose decimal form is the code, with its message and
/// with the mark of the imposter; a marked one with its marker besides.
pub proof fn law_failures_tell_their_status(status: u16, marker: Seq<char>, message: Seq<char>)
    ensures
        failure(status, message).status == status,
        tells(failure(status, message), text::decimal(status as nat), message),
        failure(status, message).headers.contains(("x-rift-imposter"@, "true"@)),
        failure(status, message).headers.len() == 2,
        marked_failure(status, marker, message).status == status,
        tells(marked_failure(status, marker, message), text::decimal(status as nat), message),
        marked_failure(status, marker, message).headers.contains(("x-rift-imposter"@, "true"@)),
        marked_failure(status, marker, message).headers.contains((marker, "true"@)),
        marked_failure(status, marker, message).headers.len() == 3,
{
    let f = failure(status, message);
    let m = marked_failure(status, marker, message);
    assert(f.headers[0] == ("x-rift-imposter"@, "true"@));
    assert(f.headers[1] == ("content-type"@, "application/json"@));
    assert(m.headers[0] == ("x-rift-imposter"@, "true"@));
    assert(m.headers[1] == (marker, "true"@));
    assert(m.headers[2] == ("content-type"@, "application/json"@));
}

/// A disabled imposter answers `503` and says that it is disabled; a preflight request is answered
/// `200` without a body; and so is a request that nothing matches, which says so.
pub proof fn law_standing_answers()
    ensures
        disabled().status == 503,
        tells(disabled(), text::decimal(503), "Imposter is disabled"@),
        disabled().headers.contains(("x-rift-imposter-disabled"@, "true"@)),
        disabled().headers.len() == 2,
        preflight().status == 200 && preflight().body.len() == 0 && preflight().fault is None,
        preflight().headers == seq![("x-rift-imposter"@, "true"@)],
        no_match().status == 200 && no_match().body.len() == 0 && no_match().fault is None,
        no_match().headers == seq![("x-rift-imposter"@, "true"@), ("x-rift-no-match"@, "true"@)],
{
    let d = disabled();
    assert(d.headers[0] == ("x-rift-imposter-disabled"@, "true"@));
    assert(d.headers[1] == ("content-type"@, "application/json"@));
}

/// A body that is too large is refused with `413` and the limit; debugging that takes too long is
/// answered `504`; and a template that fails `500` with its reason.
pub proof fn law_refusals_tell_why(reason: Seq<char>)
    ensures
        too_large().status == 413,
        tells(
            too_large(),
            text::decimal(413),
            "Request body exceeds maximum size of "@ + text::decimal(MAX_REQUEST_BODY_SIZE as nat)
                + " bytes"@,
        ),
        debug_timeout().status == 504,
        tells(debug_timeout(), text::decimal(504), "Debug matching timed out"@),
        debug_timeout().headers.contains(("x-rift-script-timeout"@, "true"@)),
        template_failure(reason).status == 500,
        tells(
            template_failure(reason),
            text::decimal(500),
            "template rendering failed: "@ + reason,
        ),
        template_failure(reason).headers.contains(("x-rift-template-error"@, "true"@)),
        MAX_REQUEST_BODY_SIZE == 10 * 1024 * 1024,
{
    law_failures_tell_their_status(
        413,
        Seq::empty(),
        "Request body exceeds maximum size of "@ + text::decimal(MAX_REQUEST_BODY_SIZE as nat)
            + " bytes"@,
    );
    law_failures_tell_their_status(504, "x-rift-script-timeout"@, "Debug matching timed out"@);
    law_failures_tell_their_status(
        500,
        "x-rift-template-error"@,
        "template rendering failed: "@ + reason,
    );
}

/// An injected script that takes too long is answered `504`, as a failure that may pass; one that
/// fails is answered `400`, as a fault of the configuration, and never as one that may pass.
pub proof fn law_injections_fail_by_their_cause(code: Seq<char>, message: Seq<char>)
    ensures
        inject_timeout(code, message).status == 504,
        tells(inject_timeout(code, message), code, message),
        inject_timeout(code, message).headers.contains(("x-rift-imposter"@, "true"@)),
        inject_timeout(code, message).headers.contains(("x-rift-inject-error"@, "true"@)),
        inject_timeout(code, message).headers.contains(("x-rift-script-timeout"@, "true"@)),
        inject_timeout(code, message).headers.len() == 4,
        inject_failure(code, message).status == 400,
        tells(inject_failure(code, message), code, message),
        inject_failure(code, message).headers.contains(("x-rift-imposter"@, "true"@)),
        inject_failure(code, message).headers.contains(("x-rift-inject-error"@, "true"@)),
        inject_failure(code, message).headers.len() == 3,
{
    let t = inject_timeout(code, message);
    let f = inject_failure(code, message);
    assert(t.headers[0] == ("x-rift-imposter"@, "true"@));
    assert(t.headers[1] == ("x-rift-inject-error"@, "true"@));
    assert(t.headers[2] == ("x-rift-script-timeout"@, "true"@));
    assert(t.headers[3] == ("content-type"@, "application/json"@));
    assert(f.headers[0] == ("x-rift-imposter"@, "true"@));
    assert(f.headers[1] == ("x-rift-inject-error"@, "true"@));
    assert(f.headers[2] == ("content-type"@, "application/json"@));
}

/// A failure of the matcher is answered by its cause and with its message: a script that took too
/// long `504`, one that failed `400`, and a store that failed `500`.
pub proof fn law_matcher_failures_are_told_by_cause(m: String)
    ensures
        matcher_failure(MatcherFailure::Timeout(m)).status == 504,
        tells(
            matcher_failure(MatcherFailure::Timeout(m)),
            "predicate injection timeout"@,
            m@,
        ),
        matcher_failure(MatcherFailure::Failed(MatchError::Inject(m))).status == 400,
        tells(
            matcher_failure(MatcherFailure::Failed(MatchError::Inject(m))),
            "invalid predicate injection"@,
            m@,
        ),
        matcher_failure(MatcherFailure::Failed(MatchError::Store(m))).status == 500,
        tells(
            matcher_failure(MatcherFailure::Failed(MatchError::Store(m))),
            text::decimal(500),
            m@,
        ),
{
    law_injections_fail_by_their_cause("predicate injection timeout"@, m@);
    law_injections_fail_by_their_cause("invalid predicate injection"@, m@);
    law_failures_tell_their_status(500, Seq::empty(), m@);
}

/// An upstream that cannot be reached is answered `502`, marked as such, with what went wrong
/// outermost and nothing of what lies behind it.
pub proof fn law_unreachable_upstreams_are_told(
    what: Seq<char>,
    behind: Seq<Seq<char>>,
    marker: Seq<char>,
    prefix: Seq<char>,
)
    ensures
        ({
            let r = upstream_failure(seq![what] + behind, marker, prefix);
            &&& r.status == 502
            &&& r.headers.contains((marker, "true"@))
            &&& r.headers.contains(("x-rift-imposter"@, "true"@))
            &&& tells(r, text::decimal(502), prefix + ": "@ + what)
        }),
{
    assert((seq![what] + behind)[0] == what);
    law_failures_tell_their_status(502, marker, prefix + ": "@ + what);
}

/// A fault by a known name breaks the connection as that fault does; one by an unknown name is told
/// as a `500`, and the connection stays. Either way the name is told in a header.
pub proof fn law_faults_are_served_by_name(name: Seq<char>)
    ensures
        fault_answer(name).headers == seq![("x-rift-fault"@, name)],
        fault_answer(name).fault == fault::fault_named(name),
        fault::fault_named(name) is Some ==> fault_answer(name).status == 502 && fault_answer(
            name,
        ).body.len() == 0,
        fault::fault_named(name) is None ==> fault_answer(name).status == 500 && fault_answer(
            name,
        ).body == encode_utf8("Unknown fault: "@ + name),
{
}

/// The headers that belong to one connection.
pub open spec fn connection_headers() -> Seq<Seq<char>> {
    seq![
        "connection"@,
        "keep-alive"@,
        "proxy-authenticate"@,
        "proxy-authorization"@,
        "te"@,
        "trailers"@,
        "transfer-encoding"@,
        "upgrade"@,
    ]
}

/// A header is kept back where its name is, but for case, one of the eight that belong to one
/// connection, and only there.
pub proof fn law_connection_headers_are_kept_back(name: Seq<char>, value: Seq<char>)
    ensures
        hop_by_hop("connection"@),
        hop_by_hop("keep-alive"@),
        hop_by_hop("proxy-authenticate"@),
        hop_by_hop("proxy-authorization"@),
        hop_by_hop("te"@),
        hop_by_hop("trailers"@),
        hop_by_hop("transfer-encoding"@),
        hop_by_hop("upgrade"@),
        forall|known: Seq<char>|
            connection_headers().contains(known) && #[trigger] text::text_eq(name, known, false)
                ==> hop_by_hop(name),
        hop_by_hop(name) ==> exists|known: Seq<char>|
            connection_headers().contains(known) && #[trigger] text::text_eq(name, known, false),
        passed_on(seq![(name, value)]) == (if hop_by_hop(name) {
            Seq::<(Seq<char>, Seq<char>)>::empty()
        } else {
            seq![(name, value)]
        }),
{
    let names = connection_headers();
    assert(names[0] == "connection"@ && names[1] == "keep-alive"@ && names[2]
        == "proxy-authenticate"@ && names[3] == "proxy-authorization"@ && names[4] == "te"@
        && names[5] == "trailers"@ && names[6] == "transfer-encoding"@ && names[7] == "upgrade"@);
    assert(names.len() == 8);
    assert forall|known: Seq<char>|
        names.contains(known) && #[trigger] text::text_eq(name, known, false) implies hop_by_hop(
        name,
    ) by {
        let i = choose|i: int| 0 <= i < names.len() && names[i] == known;
        assert(0 <= i < 8);
    }
    let one = seq![(name, value)];
    assert(one.drop_last() =~= Seq::<(Seq<char>, Seq<char>)>::empty());
    assert(passed_on(one.drop_last()) =~= Seq::<(Seq<char>, Seq<char>)>::empty());
    assert(one.last() == (name, value));
    assert(passed_on(one) =~= (if hop_by_hop(name) {
        Seq::<(Seq<char>, Seq<char>)>::empty()
    } else {
        one
    }));
}

/// Headers are passed on one by one and in order: what is passed on of two lists together is what
/// is passed on of each, and a header is passed on exactly where it is not kept back.
pub proof fn law_other_headers_are_passed_on(
    a: Seq<(Seq<char>, Seq<char>)>,
    b: Seq<(Seq<char>, Seq<char>)>,
    header: (Seq<char>, Seq<char>),
)
    ensures
        passed_on(a + b) == passed_on(a) + passed_on(b),
        passed_on(b).contains(header) <==> b.contains(header) && !hop_by_hop(header.0),
    decreases b.len(),
{
    if b.len() == 0 {
        assert(a + b =~= a);
        assert(passed_on(a) + passed_on(b) =~= passed_on(a));
        assert(!b.contains(header));
    } else {
        let rest = b.drop_last();
        law_other_headers_are_passed_on(a, rest, header);
        assert((a + b).drop_last() =~= a + rest);
        assert((a + b).last() == b.last());
        assert(passed_on(a + b) =~= passed_on(a) + passed_on(b));
        let last = b.last();
        if rest.contains(header) {
            let i = choose|i: int| 0 <= i < rest.len() && rest[i] == header;
            assert(b[i] == header);
        }
        if b.contains(header) && header != last {
            let i = choose|i: int| 0 <= i < b.len() && b[i] == header;
            assert(rest[i] == header);
        }
        if header == last {
            assert(b[b.len() - 1] == header);
        }
        if !hop_by_hop(last.0) {
            let all = passed_on(b);
            let some = passed_on(rest);
            assert(all[some.len() as int] == last);
            if some.contains(header) {
                let i = choose|i: int| 0 <= i < some.len() && some[i] == header;
                assert(all[i] == header);
            }
            if all.contains(header) && header != last {
                let i = choose|i: int| 0 <= i < all.len() && all[i] == header;
                assert(some[i] == header);
            }
        }
    }
}

/// A proxied response is served with the upstream's status, body and headers, but for those of its
/// connection, and says that it was proxied; and how long the upstream took, exactly where that is
/// kept. A forwarded one is served in the same way, and says that it was forwarded.
pub proof fn law_upstream_answers_are_served_on(
    m: proxy_run::RecordedModel,
    header: (Seq<char>, Seq<char>),
)
    ensures
        proxied(m).status == m.status,
        proxied(m).body == m.body,
        proxied(m).fault is None,
        m.headers.contains(header) && !hop_by_hop(header.0) ==> proxied(m).headers.contains(header)
            && default_forwarded(m).headers.contains(header),
        proxied(m).headers.contains(("x-rift-imposter"@, "true"@)),
        proxied(m).headers.contains(("x-rift-proxy"@, "true"@)),
        m.latency_ms matches Some(ms) ==> proxied(m).headers.contains(
            ("x-rift-proxy-latency"@, text::decimal(ms as nat)),
        ),
        m.latency_ms is None ==> proxied(m).headers.len() == passed_on(m.headers).len() + 2,
        default_forwarded(m).status == m.status,
        default_forwarded(m).body == m.body,
        default_forwarded(m).fault is None,
        default_forwarded(m).headers.contains(("x-rift-imposter"@, "true"@)),
        default_forwarded(m).headers.contains(("x-rift-default-forward"@, "true"@)),
        default_forwarded(m).headers.len() == passed_on(m.headers).len() + 2,
{
    let kept = passed_on(m.headers);
    let p = proxied(m).headers;
    let d = default_forwarded(m).headers;
    let n = kept.len() as int;
    assert(p[n] == ("x-rift-imposter"@, "true"@));
    assert(p[n + 1] == ("x-rift-proxy"@, "true"@));
    if m.latency_ms is Some {
        assert(p[n + 2] == ("x-rift-proxy-latency"@, text::decimal(m.latency_ms->0 as nat)));
    }
    assert(d[n] == ("x-rift-imposter"@, "true"@));
    assert(d[n + 1] == ("x-rift-default-forward"@, "true"@));
    law_other_headers_are_passed_on(Seq::empty(), m.headers, header);
    if m.headers.contains(header) && !hop_by_hop(header.0) {
        let i = choose|i: int| 0 <= i < kept.len() && kept[i] == header;
        assert(p[i] == header && d[i] == header);
    }
}

/// An injected response is served with the script's status, headers and text, and says that it was
/// injected.
pub proof fn law_injected_answers_are_served(
    status: u16,
    headers: Seq<(Seq<char>, Seq<char>)>,
    body: Seq<char>,
)
    ensures
        injected(status, headers, body).status == status,
        injected(status, headers, body).body == encode_utf8(body),
        injected(status, headers, body).fault is None,
        injected(status, headers, body).headers == headers + seq![
            ("x-rift-imposter"@, "true"@),
            ("x-rift-inject"@, "true"@),
        ],
{
    assert(injected(status, headers, body).headers =~= headers + seq![
        ("x-rift-imposter"@, "true"@),
        ("x-rift-inject"@, "true"@),
    ]);
}

proof fn lemma_has_after_push(
    headers: Seq<(Seq<char>, Seq<char>)>,
    e: (Seq<char>, Seq<char>),
    name: Seq<char>,
)
    ensures
        has_header(headers.push(e), name) == (has_header(headers, name) || text::text_eq(
            e.0,
            name,
            false,
        )),
    decreases headers.len(),
{
    if headers.len() > 0 {
        assert(headers.push(e).drop_first() =~= headers.drop_first().push(e));
        lemma_has_after_push(headers.drop_first(), e, name);
    } else {
        assert(headers.push(e).drop_first() =~= headers);
    }
}

/// Where any origin is allowed, a response says so in all three headers that say it; one that was
/// there already, in whatever case, stays as it is and is not doubled, and every other allows all.
pub proof fn law_any_origin_is_allowed(headers: Seq<(Seq<char>, Seq<char>)>)
    ensures
        has_header(with_cors(headers), "access-control-allow-origin"@),
        has_header(with_cors(headers), "access-control-allow-headers"@),
        has_header(with_cors(headers), "access-control-allow-methods"@),
        !has_header(headers, "access-control-allow-origin"@) ==> with_cors(headers).contains(
            ("access-control-allow-origin"@, "*"@),
        ),
        forall|i: int|
            headers.len() <= i < with_cors(headers).len() ==> (#[trigger] with_cors(headers)[i]).1
                == "*"@ && !has_header(headers, with_cors(headers)[i].0),
        has_header(headers, "access-control-allow-origin"@) && has_header(
            headers,
            "access-control-allow-headers"@,
        ) && has_header(headers, "access-control-allow-methods"@) ==> with_cors(headers)
            == headers,
{
    let o = "access-control-allow-origin"@;
    let h = "access-control-allow-headers"@;
    let m = "access-control-allow-methods"@;
    let one = with_missing(headers, o);
    let two = with_missing(one, h);
    assert(text::text_eq(o, o, false) && text::text_eq(h, h, false) && text::text_eq(m, m, false));
    lemma_has_after_push(headers, (o, "*"@), o);
    lemma_has_after_push(headers, (o, "*"@), h);
    lemma_has_after_push(headers, (o, "*"@), m);
    lemma_has_after_push(one, (h, "*"@), o);
    lemma_has_after_push(one, (h, "*"@), h);
    lemma_has_after_push(one, (h, "*"@), m);
    lemma_has_after_push(two, (m, "*"@), o);
    lemma_has_after_push(two, (m, "*"@), h);
    lemma_has_after_push(two, (m, "*"@), m);
    if !has_header(headers, o) {
        assert(with_cors(headers)[headers.len() as int] == (o, "*"@));
    }
}

/// Nothing but control characters is taken from a header value: texts lose theirs one by one, and
/// every other character stays, in order.
pub proof fn law_only_control_characters_are_lost(a: Seq<char>, b: Seq<char>, c: char)
    ensures
        without_control(a + b) == without_control(a) + without_control(b),
        without_control(seq![c]) == (if c as int <= 0x1f || 0x7f <= c as int <= 0x9f {
            Seq::<char>::empty()
        } else {
            seq![c]
        }),
        (forall|i: int| 0 <= i < b.len() ==> !is_control(#[trigger] b[i])) ==> without_control(b)
            == b,
    decreases b.len(),
{
    let one = seq![c];
    assert(one.drop_last() =~= Seq::<char>::empty());
    assert(without_control(one.drop_last()) =~= Seq::<char>::empty());
    assert(one.last() == c);
    assert(without_control(one) =~= (if is_control(c) {
        Seq::<char>::empty()
    } else {
        one
    }));
    if b.len() == 0 {
        assert(a + b =~= a);
        assert(without_control(a) + without_control(b) =~= without_control(a));
        assert(without_control(b) =~= b);
    } else {
        law_only_control_characters_are_lost(a, b.drop_last(), c);
        assert((a + b).drop_last() =~= a + b.drop_last());
        assert((a + b).last() == b.last());
        assert(without_control(a + b) =~= without_control(a) + without_control(b));
        if forall|i: int| 0 <= i < b.len() ==> !is_control(#[trigger] b[i]) {
            assert(!is_control(b[b.len() - 1]));
            assert forall|i: int| 0 <= i < b.drop_last().len() implies !is_control(
                #[trigger] b.drop_last()[i],
            ) by {
                assert(b.drop_last()[i] == b[i]);
            }
            assert(b.drop_last().push(b.last()) =~= b);
        }
    }
}

/// A lookup that was left without an answer is told as a `500`.
pub proof fn law_unanswered_lookups_are_told(l: crate::predicate::Lookup)
    ensures
        matcher_failure(MatcherFailure::Failed(MatchError::Unresolved(l))).status == 500,
        tells(
            matcher_failure(MatcherFailure::Failed(MatchError::Unresolved(l))),
            text::decimal(500),
            "a lookup was left unanswered"@,
        ),
{
    law_failures_tell_their_status(500, Seq::empty(), "a lookup was left unanswered"@);
}

/// A response is seen as it is: the status, every header line, the body and the fault.
pub proof fn law_responses_are_seen_as_they_are(r: ServedResponse, i: int)
    ensures
        r@.status == r.status,
        r@.body == r.body@,
        r@.fault == r.fault,
        r@.headers.len() == r.headers@.len(),
        0 <= i < r.headers@.len() ==> r@.headers[i] == (r.headers@[i].0@, r.headers@[i].1@),
{
}

} // verus!
