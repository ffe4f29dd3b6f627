//! The hash that bodies are looked up by.

use rift_mock_core::compare::{
    check_exists_json_recursive, check_exists_read, compare_json_recursive, compare_read, Comparator,
    Relation,
};
use rift_mock_core::json::{Json, JsonObject};
use rift_mock_core::regex_cache::RegexCache;
use rift_mock_core::structural_hash::{is_jsonish_string, structural_hash};

fn json(text: &str) -> Json {
    Json::parse(text).expect("JSON")
}

fn deep_equals_default(expected: &Json, actual: &Json) -> bool {
    let comparator = Comparator {
        relation: Relation::Equals,
        case_sensitive: false,
        key_case_sensitive: false,
        deep: true,
        except: None,
    };
    let mut cache = RegexCache::new();
    compare_json_recursive(
        &comparator,
        expected,
        actual.compared_text().as_str(),
        Some(actual),
        &mut cache,
    )
}

fn assert_sound(e: &Json, a: &Json) {
    if deep_equals_default(e, a) {
        let (he, ha) = (structural_hash(e), structural_hash(a));
        assert!(
            he.is_none() || ha.is_none() || he == ha,
            "deep_equals holds but hashes differ\n e={e:?}\n a={a:?}\n he={he:?} ha={ha:?}"
        );
    }
}

#[test]
fn concrete_cross_type_equivalences_hash_equal() {
    for (e, a) in [
        (r#"{"n": 1}"#, r#"{"n": "1"}"#),
        (r#"{"b": true}"#, r#"{"b": "true"}"#),
        (r#"{"z": null}"#, r#"{"z": ""}"#),
        (r#"{"s": "ABC"}"#, r#"{"s": "abc"}"#),
        (r#"{"a": 1, "b": 2}"#, r#"{"b": 2, "a": 1}"#),
        (r#"{"Key": 1}"#, r#"{"key": 1}"#),
        (r#"[1, "2", null]"#, r#"["1", 2, ""]"#),
        (r#"{"o": {"x": 1}}"#, r#"{"o": {"x": "1"}}"#),
    ] {
        let (e, a) = (json(e), json(a));
        assert!(deep_equals_default(&e, &a), "precondition: {e:?} deep-equals {a:?}");
        assert_eq!(structural_hash(&e), structural_hash(&a));
        assert!(structural_hash(&e).is_some());
    }
}

#[test]
fn distinct_numbers_stay_distinct() {
    assert!(!deep_equals_default(&json(r#"{"n": 1.0}"#), &json(r#"{"n": 1}"#)));
    assert_ne!(
        structural_hash(&json(r#"{"n": 1.0}"#)),
        structural_hash(&json(r#"{"n": 1}"#))
    );
}

#[test]
fn json_in_string_leaf_bails_both_directions() {
    assert_eq!(structural_hash(&json(r#"{"a": "{\"b\":1}"}"#)), None);
    assert_eq!(structural_hash(&json(r#"{"a": " [1,2]"}"#)), None);
    assert_eq!(structural_hash(&json(r#"["{}"]"#)), None);
    assert!(deep_equals_default(
        &json(r#"{"a": {"b": 1}}"#),
        &json(r#"{"a": "{\"b\":1}"}"#)
    ));
    assert!(structural_hash(&json(r#"{"a": "x{y"}"#)).is_some());
}

#[test]
fn empty_container_types_are_distinct() {
    assert_ne!(structural_hash(&json("{}")), structural_hash(&json("[]")));
    assert_ne!(structural_hash(&json("{}")), structural_hash(&json(r#""""#)));
}

#[test]
fn array_order_is_significant() {
    assert!(!deep_equals_default(&json("[1, 2]"), &json("[2, 1]")));
    assert_ne!(structural_hash(&json("[1, 2]")), structural_hash(&json("[2, 1]")));
}

struct Lcg(u64);

impl Lcg {
    fn next_u64(&mut self) -> u64 {
        self.0 = self.0.wrapping_mul(6364136223846793005).wrapping_add(1442695040888963407);
        self.0
    }
    fn below(&mut self, n: u64) -> u64 {
        self.next_u64() % n
    }
    fn coin(&mut self) -> bool {
        self.next_u64() & 1 == 1
    }
}

fn gen_value(rng: &mut Lcg, depth: u32) -> Json {
    let leaf = depth == 0 || rng.below(100) < (40 + u64::from(depth) * 25);
    if leaf {
        match rng.below(7) {
            0 => Json::Null,
            1 => Json::bool(rng.coin()),
            2 => Json::number(rng.below(4)),
            3 => Json::Number(
                serde_json::Number::from_f64(rng.below(3) as f64 + 0.5).expect("finite"),
            ),
            4 => Json::text(["a", "B", "aB", ""][rng.below(4) as usize]),
            5 => Json::text(rng.below(4).to_string().as_str()),
            _ => Json::text("{jsonish"),
        }
    } else if rng.coin() {
        let n = rng.below(3);
        let mut m = JsonObject::new();
        for i in 0..n {
            let key = ["k", "K", "other"][i as usize % 3].to_string();
            m.insert(key, gen_value(rng, depth - 1));
        }
        Json::object(m)
    } else {
        let n = rng.below(3);
        Json::Array((0..n).map(|_| gen_value(rng, depth - 1)).collect())
    }
}

fn preserving_variant(rng: &mut Lcg, v: &Json) -> Json {
    match v {
        Json::Null => {
            if rng.coin() {
                Json::text("")
            } else {
                Json::Null
            }
        }
        Json::Bool(b) => {
            if rng.coin() {
                Json::text(b.to_string().as_str())
            } else {
                Json::bool(*b)
            }
        }
        Json::Number(n) => {
            if rng.coin() {
                Json::text(n.to_string().as_str())
            } else {
                Json::Number(n.clone())
            }
        }
        Json::Text(s) => {
            if is_jsonish_string(s) {
                Json::text(s)
            } else if rng.coin() {
                Json::text(s.to_uppercase().as_str())
            } else {
                Json::text(s.to_lowercase().as_str())
            }
        }
        Json::Array(a) => Json::Array(a.iter().map(|e| preserving_variant(rng, e)).collect()),
        Json::Object(m) => {
            let mut entries: Vec<(String, Json)> = Vec::new();
            for i in 0..m.len() {
                let k = m.key_at(i);
                let key = if rng.coin() { k.to_uppercase() } else { k.clone() };
                entries.push((key, preserving_variant(rng, m.value_at(i))));
            }
            entries.reverse();
            let mut out = JsonObject::new();
            for (k, v) in entries {
                out.insert(k, v);
            }
            Json::object(out)
        }
    }
}

#[test]
fn structural_hash_agrees_with_deep_equals_property() {
    let mut rng = Lcg(0x5eed_1234_9e37_79b9);
    let mut deep_equal_cases = 0u32;
    let iterations = 10_000;
    for _ in 0..iterations {
        let a = gen_value(&mut rng, 3);
        let e = if rng.coin() { preserving_variant(&mut rng, &a) } else { gen_value(&mut rng, 3) };
        if deep_equals_default(&e, &a) {
            deep_equal_cases += 1;
        }
        assert_sound(&e, &a);
        assert_sound(&a, &e);
    }
    assert!(
        deep_equal_cases > iterations / 10,
        "generator too weak: only {deep_equal_cases}/{iterations} deep-equal pairs"
    );
}

#[test]
fn jsonish_texts_open_like_a_container() {
    assert!(is_jsonish_string(" {"));
    assert!(is_jsonish_string("[x"));
    assert!(!is_jsonish_string("x["));
    assert!(!is_jsonish_string(""));
}

#[test]
fn values_are_held_against_what_was_read() {
    let comparator = |deep: bool| Comparator {
        relation: Relation::Equals,
        case_sensitive: false,
        key_case_sensitive: false,
        deep,
        except: None,
    };
    let (want, have) = (json(r#"{"A": "X"}"#), json(r#"{"a": "x", "b": 2}"#));
    let mut cache = RegexCache::new();
    assert!(compare_read(&comparator(false), &want, "", Some(&have), &mut cache));
    assert!(!compare_read(&comparator(true), &want, "", Some(&have), &mut cache));
    assert!(!compare_read(&comparator(false), &want, "", None, &mut cache));
    assert!(compare_read(&comparator(false), &json(r#""T""#), "t", None, &mut cache));
    assert!(check_exists_read(&json(r#"{"a": true, "c": false}"#), "", Some(&have)));
    assert!(!check_exists_read(&json(r#"{"a": true}"#), "", None));
    assert!(check_exists_read(&json(r#"{"a": false}"#), "", None));
}

#[test]
fn existence_of_nested_members() {
    assert!(check_exists_json_recursive(&json(r#"{"a": true}"#), r#"{"a": 1}"#));
    assert!(!check_exists_json_recursive(&json(r#"{"a": false}"#), r#"{"a": 1}"#));
    assert!(check_exists_json_recursive(&json(r#"{"b": false}"#), r#"{"a": 1}"#));
    assert!(check_exists_json_recursive(&json("true"), "x"));
    assert!(!check_exists_json_recursive(&json("true"), ""));
}

#[test]
fn keys_of_the_same_letters_leave_no_hash() {
    assert_eq!(structural_hash(&json(r#"{"k": 1, "K": 1}"#)), None);
    assert_eq!(structural_hash(&json(r#"[{"a": {"Key": 1, "x": 2, "kEY": 3}}]"#)), None);
    assert!(structural_hash(&json(r#"{"k": 1, "other": 1}"#)).is_some());
    // Unicode letters do not fold.
    assert!(structural_hash(&json(r#"{"é": 1, "É": 1}"#)).is_some());
    let (e, a) = (json(r#"{"k": 1, "K": 1}"#), json(r#"{"K": 1, "k": 2}"#));
    assert!(deep_equals_default(&e, &a));
    assert_sound(&e, &a);
    assert_sound(&e, &json(r#"{"k": 1, "other": 2}"#));
}

#[test]
fn inner_containers_that_read_back_have_a_hash() {
    for text in [r#"{"a": {"n": 1.5, "list": [1e300, -0.25]}}"#, r#"[[[]], {"x": {"y": null}}]"#] {
        assert!(structural_hash(&json(text)).is_some(), "{text}");
    }
}

#[test]
fn identical_values_are_the_same_node_by_node() {
    let v = json(r#"{"a": [1, "x", null, true], "b": {"c": 0.5}}"#);
    assert!(v.identical(&v.copy()));
    for other in [
        r#"{"b": {"c": 0.5}, "a": [1, "x", null, true]}"#,
        r#"{"a": [1, "x", null, false], "b": {"c": 0.5}}"#,
        r#"{"a": [1, "x", null], "b": {"c": 0.5}}"#,
        r#"{"a": [1, "x", null, true], "b": {"c": 0.25}}"#,
        r#"{"a": [1, "x", null, true]}"#,
        "[]",
    ] {
        assert!(!v.identical(&json(other)), "{other}");
    }
    assert!(!json("0.0").identical(&json("-0.0")));
    assert!(json("0.0").same(&json("-0.0")));
}
