//! Query strings and form bodies.

use rift_mock_core::lookup;
use rift_mock_core::matching::parse_form_data;
use rift_mock_core::query::{parse_query, parse_query_string};

fn get<'a>(params: &'a Vec<(String, String)>, key: &str) -> Option<&'a String> {
    lookup::find(params, key, true)
}

fn form_headers() -> Vec<(String, String)> {
    vec![("Content-Type".to_string(), "application/x-www-form-urlencoded".to_string())]
}

#[test]
fn test_parse_query_string_multi_valued_comma_joined() {
    let result = parse_query_string("key=first&key=second");
    assert_eq!(result.len(), 1);
    assert_eq!(get(&result, "key"), Some(&"first,second".to_string()));
}

#[test]
fn test_parse_query_string_bare_param() {
    let result = parse_query_string("flag");
    assert_eq!(get(&result, "flag"), Some(&String::new()));
}

#[test]
fn test_parse_query_string_mixed_bare_and_valued() {
    let result = parse_query_string("a=1&flag&b=2");
    assert_eq!(get(&result, "a"), Some(&"1".to_string()));
    assert_eq!(get(&result, "b"), Some(&"2".to_string()));
    assert!(get(&result, "flag").is_some());
}

#[test]
fn test_parse_query_string_url_encoded() {
    let result = parse_query_string("key=hello%20world&name=caf%C3%A9");
    assert_eq!(get(&result, "key"), Some(&"hello world".to_string()));
    assert_eq!(get(&result, "name"), Some(&"café".to_string()));
}

#[test]
fn test_parse_query_string_empty() {
    let result = parse_query_string("");
    assert!(result.is_empty());
}

#[test]
fn test_parse_query_string_passes_through_undecodable_sequences() {
    let value = parse_query_string("k=%FF");
    assert_eq!(get(&value, "k"), Some(&"%FF".to_string()));
    let key = parse_query_string("%FF=v");
    assert_eq!(get(&key, "%FF"), Some(&"v".to_string()));
    let collision = parse_query_string("%FF=a&%FE=b");
    assert_eq!(get(&collision, "%FF"), Some(&"a".to_string()));
    assert_eq!(get(&collision, "%FE"), Some(&"b".to_string()));
    assert_eq!(collision.len(), 2);
}

#[test]
fn no_query_has_no_parameters() {
    assert!(parse_query(None).is_empty());
    assert_eq!(parse_query(Some("a=b")).len(), 1);
}

#[test]
fn keys_stay_distinct() {
    let params = parse_query_string("a=1&b=2&a=3&A=4");
    let keys: Vec<&str> = params.iter().map(|p| p.0.as_str()).collect();
    assert_eq!(keys, vec!["a", "b", "A"]);
    assert_eq!(get(&params, "a"), Some(&"1,3".to_string()));
}

#[test]
fn a_form_needs_its_content_type() {
    assert!(parse_form_data(&Vec::new(), Some("a=1")).is_none());
    assert!(parse_form_data(&form_headers(), None).is_none());
    assert!(parse_form_data(&form_headers(), Some("a=1")).is_some());
}

#[test]
fn parse_form_data_passes_through_undecodable_sequences() {
    let headers = form_headers();
    let form = parse_form_data(&headers, Some("k=%FF")).expect("form parsed");
    assert_eq!(get(&form, "k"), Some(&"%FF".to_string()));
    let form = parse_form_data(&headers, Some("%FF=v")).expect("form parsed");
    assert_eq!(get(&form, "%FF"), Some(&"v".to_string()));
    let form = parse_form_data(&headers, Some("k=hello%20world")).expect("parsed");
    assert_eq!(get(&form, "k"), Some(&"hello world".to_string()));
}

#[test]
fn test_parse_form_data_multi_valued_fields() {
    let result = parse_form_data(&form_headers(), Some("checkbox=A&checkbox=B&checkbox=C"));
    let form = result.expect("Should parse form data");
    assert_eq!(get(&form, "checkbox").unwrap(), "A,B,C");

    let lower =
        vec![("content-type".to_string(), "application/x-www-form-urlencoded".to_string())];
    assert!(parse_form_data(&lower, Some("a=1")).is_some());
}
