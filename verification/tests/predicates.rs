//! Predicates on requests.

use rift_mock_core::json::{Json, JsonObject};
use rift_mock_core::predicate::{
    Answer, Finding, Lookup, MatchError, Predicate, PredicateOperation, PredicateParameters,
    PredicateSelector,
};
use rift_mock_core::predicates::{
    predicate_matches, predicate_matches_inner, stub_matches, RequestParts,
};
use rift_mock_core::query::parse_query;
use rift_mock_core::regex_cache::RegexCache;
use rift_mock_core::text::{
    contains_ignore_ascii_case, ends_with_ignore_ascii_case, starts_with_ignore_ascii_case,
};

type Headers = Vec<(String, String)>;

fn fields(text: &str) -> JsonObject {
    match Json::parse(text) {
        Some(Json::Object(o)) => o,
        other => panic!("not an object: {other:?}"),
    }
}

fn make_predicate(operation: PredicateOperation) -> Predicate {
    Predicate { parameters: PredicateParameters::default(), operation }
}

fn make_predicate_with_params(
    operation: PredicateOperation,
    parameters: PredicateParameters,
) -> Predicate {
    Predicate { parameters, operation }
}

fn empty_headers() -> Headers {
    Vec::new()
}

fn header(name: &str, value: &str) -> Headers {
    vec![(name.to_string(), value.to_string())]
}

fn outcome(
    p: &Predicate,
    method: &str,
    path: &str,
    query: Option<&str>,
    headers: &Headers,
    body: Option<&str>,
    findings: &Vec<Finding>,
) -> Result<bool, MatchError> {
    let mut cache = RegexCache::new();
    predicate_matches(
        p, method, path, query, headers, body, None, None, None, findings, &mut cache,
    )
}

fn holds(
    p: &Predicate,
    method: &str,
    path: &str,
    query: Option<&str>,
    headers: &Headers,
    body: Option<&str>,
) -> bool {
    outcome(p, method, path, query, headers, body, &Vec::new()).unwrap()
}

fn stub_holds(predicates: &Vec<Predicate>, method: &str, path: &str, body: Option<&str>) -> bool {
    let mut cache = RegexCache::new();
    stub_matches(
        predicates,
        method,
        path,
        None,
        &empty_headers(),
        body,
        None,
        None,
        None,
        &Vec::new(),
        &mut cache,
    )
    .unwrap()
}

fn extracted(selector: &str, value: Option<&str>) -> Vec<Finding> {
    vec![Finding {
        lookup: Lookup::JsonPath(selector.to_string()),
        answer: Answer::Extracted(value.map(str::to_string)),
    }]
}

fn injected(script: &str, said: Result<bool, &str>) -> Vec<Finding> {
    vec![Finding {
        lookup: Lookup::Inject(script.to_string()),
        answer: Answer::Injected(said.map_err(str::to_string)),
    }]
}

#[test]
fn test_equals_query_multi_valued_param() {
    let pred = make_predicate(PredicateOperation::Equals(fields(
        r#"{"query": {"key": "first,second"}}"#,
    )));
    assert!(holds(&pred, "GET", "/test", Some("key=first&key=second"), &empty_headers(), None));
}

#[test]
fn test_exists_query_bare_param() {
    let pred = make_predicate(PredicateOperation::Exists(fields(r#"{"query": {"flag": true}}"#)));
    assert!(holds(&pred, "GET", "/test", Some("flag"), &empty_headers(), None));
}

#[test]
fn test_deep_equals_body_json_key_order_independence() {
    let pred =
        make_predicate(PredicateOperation::DeepEquals(fields(r#"{"body": {"a": 1, "b": 2}}"#)));
    assert!(holds(&pred, "GET", "/test", None, &empty_headers(), Some(r#"{"b":2,"a":1}"#)));
}

#[test]
fn stub_with_two_json_body_predicates_shares_one_parse() {
    let predicates = vec![
        make_predicate(PredicateOperation::DeepEquals(fields(r#"{"body": {"a": 1, "b": 2}}"#))),
        make_predicate(PredicateOperation::Contains(fields(r#"{"body": {"a": 1}}"#))),
    ];
    assert!(stub_holds(&predicates, "POST", "/x", Some(r#"{"b":2,"a":1}"#)));
    assert!(!stub_holds(&predicates, "POST", "/x", Some(r#"{"a":1,"b":2,"c":3}"#)));
    assert!(!stub_holds(&predicates, "POST", "/x", Some("not json")));
}

#[test]
fn deep_equals_with_jsonpath_selector_uses_extracted_body_not_raw_parse() {
    let params = PredicateParameters {
        selector: Some(PredicateSelector::JsonPath { selector: "$.data".to_string() }),
        ..PredicateParameters::default()
    };
    let pred = make_predicate_with_params(
        PredicateOperation::DeepEquals(fields(r#"{"body": {"a": 1, "b": 2}}"#)),
        params,
    );
    let body = r#"{"data":{"a":1,"b":2},"other":"x"}"#;
    let findings = extracted("$.data", Some(r#"{"a":1,"b":2}"#));
    assert!(outcome(&pred, "POST", "/x", None, &empty_headers(), Some(body), &findings).unwrap());
}

#[test]
fn test_deep_equals_body_string_match() {
    let pred =
        make_predicate(PredicateOperation::DeepEquals(fields(r#"{"body": "hello world"}"#)));
    assert!(holds(&pred, "GET", "/test", None, &empty_headers(), Some("hello world")));
}

#[test]
fn test_exists_query_key_case_sensitive_false() {
    let pred = make_predicate(PredicateOperation::Exists(fields(r#"{"query": {"Key": true}}"#)));
    assert!(holds(&pred, "GET", "/test", Some("key=value"), &empty_headers(), None));
}

#[test]
fn test_exists_header_key_case_sensitive_true() {
    let params =
        PredicateParameters { key_case_sensitive: Some(true), ..PredicateParameters::default() };
    let pred = make_predicate_with_params(
        PredicateOperation::Exists(fields(r#"{"headers": {"Content-Type": true}}"#)),
        params,
    );
    assert!(holds(
        &pred,
        "GET",
        "/test",
        None,
        &header("Content-Type", "application/json"),
        None
    ));
}

#[test]
fn test_exists_form_key_case_sensitive() {
    let pred = make_predicate(PredicateOperation::Exists(fields(r#"{"form": {"Name": true}}"#)));
    let form = header("name", "John");
    let mut cache = RegexCache::new();
    assert!(predicate_matches(
        &pred,
        "POST",
        "/test",
        None,
        &empty_headers(),
        Some("name=John"),
        None,
        None,
        Some(&form),
        &Vec::new(),
        &mut cache,
    )
    .unwrap());
}

#[test]
fn test_header_key_case_sensitive_true_with_title_case() {
    let params = PredicateParameters {
        case_sensitive: Some(true),
        key_case_sensitive: Some(true),
        ..PredicateParameters::default()
    };
    let pred = make_predicate_with_params(
        PredicateOperation::Equals(fields(r#"{"headers": {"Content-Type": "application/json"}}"#)),
        params,
    );
    assert!(holds(
        &pred,
        "GET",
        "/test",
        None,
        &header("Content-Type", "application/json"),
        None
    ));
}

#[test]
fn test_header_key_case_sensitive_false_default() {
    let pred = make_predicate(PredicateOperation::Equals(fields(
        r#"{"headers": {"Content-Type": "application/json"}}"#,
    )));
    assert!(holds(
        &pred,
        "GET",
        "/test",
        None,
        &header("content-type", "application/json"),
        Some("")
    ));
}

#[test]
fn test_equals_method() {
    let pred = make_predicate(PredicateOperation::Equals(fields(r#"{"method": "POST"}"#)));
    assert!(holds(&pred, "POST", "/test", None, &empty_headers(), None));
    assert!(holds(&pred, "post", "/test", None, &empty_headers(), None));
    assert!(!holds(&pred, "GET", "/test", None, &empty_headers(), None));
}

#[test]
fn test_equals_path() {
    let pred = make_predicate(PredicateOperation::Equals(fields(r#"{"path": "/api/users"}"#)));
    assert!(holds(&pred, "GET", "/api/users", None, &empty_headers(), None));
    assert!(!holds(&pred, "GET", "/api/other", None, &empty_headers(), None));
}

#[test]
fn test_contains_body() {
    let pred = make_predicate(PredicateOperation::Contains(fields(r#"{"body": "hello"}"#)));
    assert!(holds(&pred, "POST", "/", None, &empty_headers(), Some("say hello world")));
    assert!(!holds(&pred, "POST", "/", None, &empty_headers(), Some("goodbye")));
}

#[test]
fn test_starts_with_path() {
    let pred = make_predicate(PredicateOperation::StartsWith(fields(r#"{"path": "/api/"}"#)));
    assert!(holds(&pred, "GET", "/api/users", None, &empty_headers(), None));
    assert!(!holds(&pred, "GET", "/web/page", None, &empty_headers(), None));
}

#[test]
fn test_ends_with_path() {
    let pred = make_predicate(PredicateOperation::EndsWith(fields(r#"{"path": ".json"}"#)));
    assert!(holds(&pred, "GET", "/data/file.json", None, &empty_headers(), None));
    assert!(!holds(&pred, "GET", "/data/file.xml", None, &empty_headers(), None));
}

#[test]
fn test_matches_regex() {
    let pred =
        make_predicate(PredicateOperation::Matches(fields(r#"{"path": "^/api/users/\\d+$"}"#)));
    assert!(holds(&pred, "GET", "/api/users/123", None, &empty_headers(), None));
    assert!(!holds(&pred, "GET", "/api/users/abc", None, &empty_headers(), None));
}

#[test]
fn test_matches_regex_honors_case_sensitivity() {
    let insensitive = make_predicate(PredicateOperation::Matches(fields(r#"{"path": "^/API/"}"#)));
    assert!(holds(&insensitive, "GET", "/api/users", None, &empty_headers(), None));
    let sensitive = make_predicate_with_params(
        PredicateOperation::Matches(fields(r#"{"path": "^/API/"}"#)),
        PredicateParameters { case_sensitive: Some(true), ..PredicateParameters::default() },
    );
    assert!(!holds(&sensitive, "GET", "/api/users", None, &empty_headers(), None));
}

#[test]
fn test_not_predicate() {
    let inner = make_predicate(PredicateOperation::Equals(fields(r#"{"method": "GET"}"#)));
    let pred = make_predicate(PredicateOperation::Not(Box::new(inner)));
    assert!(!holds(&pred, "GET", "/", None, &empty_headers(), None));
    assert!(holds(&pred, "POST", "/", None, &empty_headers(), None));
}

#[test]
fn test_or_predicate() {
    let pred = make_predicate(PredicateOperation::Or(vec![
        make_predicate(PredicateOperation::Equals(fields(r#"{"method": "GET"}"#))),
        make_predicate(PredicateOperation::Equals(fields(r#"{"method": "POST"}"#))),
    ]));
    assert!(holds(&pred, "GET", "/", None, &empty_headers(), None));
    assert!(holds(&pred, "POST", "/", None, &empty_headers(), None));
    assert!(!holds(&pred, "DELETE", "/", None, &empty_headers(), None));
}

#[test]
fn test_and_predicate() {
    let pred = make_predicate(PredicateOperation::And(vec![
        make_predicate(PredicateOperation::Equals(fields(r#"{"method": "GET"}"#))),
        make_predicate(PredicateOperation::Equals(fields(r#"{"path": "/api"}"#))),
    ]));
    assert!(holds(&pred, "GET", "/api", None, &empty_headers(), None));
    assert!(!holds(&pred, "POST", "/api", None, &empty_headers(), None));
    assert!(!holds(&pred, "GET", "/other", None, &empty_headers(), None));
}

#[test]
fn test_case_sensitive_equals() {
    let params =
        PredicateParameters { case_sensitive: Some(true), ..PredicateParameters::default() };
    let pred = make_predicate_with_params(
        PredicateOperation::Equals(fields(r#"{"method": "POST"}"#)),
        params,
    );
    assert!(holds(&pred, "POST", "/", None, &empty_headers(), None));
    assert!(!holds(&pred, "post", "/", None, &empty_headers(), None));
}

#[test]
fn test_except_pattern() {
    let params =
        PredicateParameters { except: "/api".to_string(), ..PredicateParameters::default() };
    let pred = make_predicate_with_params(
        PredicateOperation::Equals(fields(r#"{"path": "/api/users"}"#)),
        params,
    );
    assert!(!holds(&pred, "GET", "/api/users", None, &empty_headers(), None));
}

#[test]
fn test_exists_body() {
    let pred_true = make_predicate(PredicateOperation::Exists(fields(r#"{"body": true}"#)));
    let pred_false = make_predicate(PredicateOperation::Exists(fields(r#"{"body": false}"#)));
    assert!(holds(&pred_true, "POST", "/", None, &empty_headers(), Some("content")));
    assert!(!holds(&pred_true, "GET", "/", None, &empty_headers(), None));
    assert!(holds(&pred_false, "GET", "/", None, &empty_headers(), None));
}

#[test]
fn test_exists_header() {
    let pred =
        make_predicate(PredicateOperation::Exists(fields(r#"{"headers": {"content-type": true}}"#)));
    assert!(holds(&pred, "GET", "/", None, &header("content-type", "application/json"), None));
    assert!(!holds(&pred, "GET", "/", None, &empty_headers(), None));
}

#[test]
fn test_deep_equals_query_extra_params_mismatch() {
    let pred = make_predicate(PredicateOperation::DeepEquals(fields(r#"{"query": {"a": "1"}}"#)));
    assert!(holds(&pred, "GET", "/", Some("a=1"), &empty_headers(), None));
    assert!(!holds(&pred, "GET", "/", Some("a=1&b=2"), &empty_headers(), None));
}

#[test]
fn test_deep_equals_headers_extra_mismatch() {
    let pred = make_predicate(PredicateOperation::DeepEquals(fields(
        r#"{"headers": {"x-custom": "value"}}"#,
    )));
    let exact = header("x-custom", "value");
    let mut extra = header("x-custom", "value");
    extra.push(("x-other".to_string(), "other".to_string()));
    assert!(holds(&pred, "GET", "/", None, &exact, None));
    assert!(!holds(&pred, "GET", "/", None, &extra, None));
}

#[test]
fn test_stub_matches_empty_predicates() {
    assert!(stub_holds(&Vec::new(), "GET", "/anything", None));
}

#[test]
fn test_stub_matches_all_must_match() {
    let predicates = vec![
        make_predicate(PredicateOperation::Equals(fields(r#"{"method": "GET"}"#))),
        make_predicate(PredicateOperation::Equals(fields(r#"{"path": "/api"}"#))),
    ];
    assert!(stub_holds(&predicates, "GET", "/api", None));
    assert!(!stub_holds(&predicates, "POST", "/api", None));
}

#[test]
fn test_equals_json_body_key_case_insensitive_by_default() {
    let pred = make_predicate(PredicateOperation::Equals(fields(r#"{"body": {"Name": "John"}}"#)));
    assert!(holds(&pred, "POST", "/test", None, &empty_headers(), Some(r#"{"name": "John"}"#)));
}

#[test]
fn test_except_applied_to_leaf_values_not_raw_json() {
    let params =
        PredicateParameters { except: "\\d+".to_string(), ..PredicateParameters::default() };
    let pred = make_predicate_with_params(
        PredicateOperation::Equals(fields(r#"{"body": {"greeting": "hello"}}"#)),
        params,
    );
    let body = r#"{"greeting": "hello", "count": 42}"#;
    assert!(holds(&pred, "POST", "/test", None, &empty_headers(), Some(body)));
}

#[test]
fn test_matches_invalid_regex_returns_false() {
    let pred = make_predicate(PredicateOperation::Matches(fields(r#"{"path": "[unclosed"}"#)));
    assert!(!holds(&pred, "GET", "/any/path/at/all", None, &empty_headers(), None));
}

#[test]
fn test_matches_method_with_except_applied() {
    let params = PredicateParameters { except: "P".to_string(), ..PredicateParameters::default() };
    let pred = make_predicate_with_params(
        PredicateOperation::Matches(fields(r#"{"method": "^OST$"}"#)),
        params,
    );
    assert!(holds(&pred, "POST", "/test", None, &empty_headers(), None));
}

#[test]
fn test_equals_body_array_rejects_longer_actual() {
    let pred = make_predicate(PredicateOperation::Equals(fields(r#"{"body": [1, 2]}"#)));
    assert!(!holds(&pred, "POST", "/test", None, &empty_headers(), Some("[1, 2, 3]")));
}

#[test]
fn test_equals_body_array_rejects_shorter_actual() {
    let pred = make_predicate(PredicateOperation::Equals(fields(r#"{"body": [1, 2, 3]}"#)));
    assert!(!holds(&pred, "POST", "/test", None, &empty_headers(), Some("[1, 2]")));
}

#[test]
fn test_exists_method_false_fails_when_present() {
    let pred = make_predicate(PredicateOperation::Exists(fields(r#"{"method": false}"#)));
    assert!(!holds(&pred, "GET", "/test", None, &empty_headers(), None));
}

#[test]
fn test_exists_path_false_fails_when_present() {
    let pred = make_predicate(PredicateOperation::Exists(fields(r#"{"path": false}"#)));
    assert!(!holds(&pred, "GET", "/test", None, &empty_headers(), None));
}

#[test]
fn test_jsonpath_bare_selector_predicate_matches() {
    let params = PredicateParameters {
        selector: Some(PredicateSelector::JsonPath { selector: "searchValue".to_string() }),
        ..PredicateParameters::default()
    };
    let pred = make_predicate_with_params(
        PredicateOperation::Equals(fields(r#"{"body": "v"}"#)),
        params,
    );
    let findings = extracted("searchValue", Some("v"));
    assert!(outcome(
        &pred,
        "POST",
        "/x",
        None,
        &empty_headers(),
        Some(r#"{"searchValue":"v"}"#),
        &findings
    )
    .unwrap());
}

#[test]
fn test_inject_predicate_matches_true() {
    let script = "function(request) { return request.path === '/api'; }";
    let pred = make_predicate(PredicateOperation::Inject(script.to_string()));
    let findings = injected(script, Ok(true));
    assert!(outcome(&pred, "GET", "/api", None, &empty_headers(), None, &findings).unwrap());
}

#[test]
fn test_inject_predicate_matches_false() {
    let script = "function(request) { return request.path === '/other'; }";
    let pred = make_predicate(PredicateOperation::Inject(script.to_string()));
    let findings = injected(script, Ok(false));
    assert!(!outcome(&pred, "GET", "/api", None, &empty_headers(), None, &findings).unwrap());
}

#[test]
fn test_inject_predicate_throwing_script_fails_loud() {
    let script = "function(request) { throw new Error('boom'); }";
    let pred = make_predicate(PredicateOperation::Inject(script.to_string()));
    let findings = injected(script, Err("invalid predicate injection: boom"));
    match outcome(&pred, "GET", "/api", None, &empty_headers(), None, &findings) {
        Err(MatchError::Inject(m)) => {
            assert!(m.contains("invalid predicate injection"), "unexpected error message: {m}")
        }
        other => panic!("a throwing inject predicate must be an error, got {other:?}"),
    }
}

#[test]
fn test_inject_predicate_undefined_reference_fails_loud() {
    let script = "function(request) { return someUndefinedVariable.path === request.path; }";
    let pred = make_predicate(PredicateOperation::Inject(script.to_string()));
    let findings = injected(script, Err("someUndefinedVariable is not defined"));
    assert!(outcome(&pred, "GET", "/api", None, &empty_headers(), None, &findings).is_err());
}

#[test]
fn test_inject_predicate_error_propagates_through_or_and_not() {
    let script = "function(request) { throw new Error('boom'); }";
    let throwing = || make_predicate(PredicateOperation::Inject(script.to_string()));
    let always_true = || make_predicate(PredicateOperation::Exists(JsonObject::new()));
    let findings = injected(script, Err("boom"));
    let headers = empty_headers();
    let parts = RequestParts {
        method: "GET",
        path: "/",
        query: None,
        headers: &headers,
        body: None,
        request_from: None,
        client_ip: None,
        form: None,
    };
    let mut cache = RegexCache::new();
    let or_pred = make_predicate(PredicateOperation::Or(vec![throwing(), always_true()]));
    assert!(predicate_matches_inner(&or_pred, &parts, None, None, &findings, &mut cache).is_err());
    let and_pred = make_predicate(PredicateOperation::And(vec![always_true(), throwing()]));
    assert!(predicate_matches_inner(&and_pred, &parts, None, None, &findings, &mut cache).is_err());
    let not_pred = make_predicate(PredicateOperation::Not(Box::new(throwing())));
    assert!(predicate_matches_inner(&not_pred, &parts, None, None, &findings, &mut cache).is_err());
}

#[test]
fn test_stub_matches_propagates_predicate_inject_error() {
    let script = "function(request) { throw new Error('boom'); }";
    let predicates = vec![make_predicate(PredicateOperation::Inject(script.to_string()))];
    let findings = injected(script, Err("boom"));
    let mut cache = RegexCache::new();
    assert!(stub_matches(
        &predicates,
        "GET",
        "/api",
        None,
        &empty_headers(),
        None,
        None,
        None,
        None,
        &findings,
        &mut cache,
    )
    .is_err());
}

#[test]
fn query_hoist_matches_local_parse() {
    let pred = make_predicate(PredicateOperation::Equals(fields(r#"{"query": {"key": "value"}}"#)));
    let query = Some("key=value");
    let parsed = parse_query(query);
    let headers = empty_headers();
    let parts = RequestParts {
        method: "GET",
        path: "/test",
        query,
        headers: &headers,
        body: None,
        request_from: None,
        client_ip: None,
        form: None,
    };
    let none = Vec::new();
    let mut cache = RegexCache::new();
    let with_hoisted =
        predicate_matches_inner(&pred, &parts, None, Some(&parsed), &none, &mut cache).unwrap();
    let with_fallback =
        predicate_matches_inner(&pred, &parts, None, None, &none, &mut cache).unwrap();
    assert!(with_hoisted);
    assert_eq!(with_hoisted, with_fallback);
}

#[test]
fn nested_query_predicate_in_or_matches() {
    let or_pred = make_predicate(PredicateOperation::Or(vec![
        make_predicate(PredicateOperation::Equals(fields(r#"{"path": "/nope"}"#))),
        make_predicate(PredicateOperation::Equals(fields(r#"{"query": {"k": "v"}}"#))),
    ]));
    assert!(holds(&or_pred, "GET", "/test", Some("k=v"), &empty_headers(), None));
}

#[test]
fn ascii_case_insensitive_helpers() {
    assert!(contains_ignore_ascii_case("Hello World", "LO WO"));
    assert!(contains_ignore_ascii_case("anything", ""));
    assert!(!contains_ignore_ascii_case("short", "longer needle"));
    assert!(!contains_ignore_ascii_case("abc", "xyz"));
    assert!(starts_with_ignore_ascii_case("Content-Type", "content-"));
    assert!(!starts_with_ignore_ascii_case("abc", "abcd"));
    assert!(ends_with_ignore_ascii_case("image.PNG", ".png"));
    assert!(!ends_with_ignore_ascii_case("abc", "zabc"));
    assert!(contains_ignore_ascii_case("caf\u{00e9}", "CAF\u{00e9}"));
}

#[test]
fn case_insensitive_string_predicates_still_match() {
    let run = |op: PredicateOperation| {
        let ci =
            PredicateParameters { case_sensitive: Some(false), ..PredicateParameters::default() };
        let pred = make_predicate_with_params(op, ci);
        holds(&pred, "GET", "/API/Users", None, &empty_headers(), None)
    };
    assert!(run(PredicateOperation::Contains(fields(r#"{"path": "api/users"}"#))));
    assert!(run(PredicateOperation::StartsWith(fields(r#"{"path": "/api"}"#))));
    assert!(run(PredicateOperation::EndsWith(fields(r#"{"path": "USERS"}"#))));
}

#[test]
fn an_unanswered_lookup_is_named() {
    let params = PredicateParameters {
        selector: Some(PredicateSelector::XPath {
            selector: "//a".to_string(),
            namespaces: vec![("x".to_string(), "urn:x".to_string())],
        }),
        ..PredicateParameters::default()
    };
    let pred =
        make_predicate_with_params(PredicateOperation::Equals(fields(r#"{"body": "v"}"#)), params);
    let r = outcome(&pred, "POST", "/", None, &empty_headers(), Some("<a/>"), &Vec::new());
    match r {
        Err(MatchError::Unresolved(Lookup::XPath(s, n))) => {
            assert_eq!(s, "//a");
            assert_eq!(n, vec![("x".to_string(), "urn:x".to_string())]);
        }
        other => panic!("expected an unanswered lookup, got {other:?}"),
    }
}

#[test]
fn a_selector_that_finds_nothing_does_not_match() {
    let params = PredicateParameters {
        selector: Some(PredicateSelector::JsonPath { selector: "$.nope".to_string() }),
        ..PredicateParameters::default()
    };
    let pred =
        make_predicate_with_params(PredicateOperation::Equals(fields(r#"{"body": "v"}"#)), params);
    let findings = extracted("$.nope", None);
    assert!(!outcome(&pred, "POST", "/", None, &empty_headers(), Some("{}"), &findings).unwrap());
}

#[test]
fn a_failed_script_is_never_negated_into_a_match() {
    let script = "boom";
    let inner = make_predicate(PredicateOperation::Inject(script.to_string()));
    let pred = make_predicate(PredicateOperation::Not(Box::new(inner)));
    let findings = injected(script, Err("boom"));
    assert!(matches!(
        outcome(&pred, "GET", "/", None, &empty_headers(), None, &findings),
        Err(MatchError::Inject(m)) if m == "boom"
    ));
}
