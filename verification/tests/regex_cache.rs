//! The cache of compiled patterns.

use rift_mock_core::regex_cache::{RegexCache, MAX_CACHED_REGEXES};
use std::sync::Arc;

#[test]
fn cached_regex_reuses_same_arc() {
    let mut cache = RegexCache::new();
    let a = cache.cached_regex("cache-me-[0-9]+", false).expect("compiles");
    let b = cache.cached_regex("cache-me-[0-9]+", false).expect("compiles");
    assert!(Arc::ptr_eq(&a, &b));
    assert!(a.is_match("cache-me-42"));
}

#[test]
fn cached_regex_keys_on_case_sensitivity() {
    let mut cache = RegexCache::new();
    let sensitive = cache.cached_regex("KEYCASE-ABC", false).expect("compiles");
    let insensitive = cache.cached_regex("KEYCASE-ABC", true).expect("compiles");
    assert!(!Arc::ptr_eq(&sensitive, &insensitive));
    assert!(sensitive.is_match("KEYCASE-ABC"));
    assert!(!sensitive.is_match("keycase-abc"));
    assert!(insensitive.is_match("keycase-abc"));
}

#[test]
fn cached_regex_invalid_returns_none() {
    let mut cache = RegexCache::new();
    assert!(cache.cached_regex("invalid-([0-9]+", false).is_none());
    assert_eq!(cache.cached_len(false), 0);
}

#[test]
fn cache_stays_bounded_under_distinct_patterns() {
    let mut cache = RegexCache::new();
    for i in 0..(MAX_CACHED_REGEXES + 200) {
        let _ = cache.cached_regex(&format!("bounded-probe-{i}-[a-z]+"), false);
    }
    assert!(cache.cached_len(false) <= MAX_CACHED_REGEXES);
}

#[test]
fn overflow_evicts_a_batch_not_the_whole_cache() {
    let mut cache = RegexCache::new();
    let fill = MAX_CACHED_REGEXES - 1;
    for i in 0..fill {
        let _ = cache.cached_regex(&format!("cliff-fill-{i}-[a-z]+"), true).expect("compiles");
    }
    let overshoot = MAX_CACHED_REGEXES / 3;
    for i in 0..overshoot {
        let _ = cache.cached_regex(&format!("cliff-over-{i}-[a-z]+"), true).expect("compiles");
    }
    let survivors =
        (0..fill).filter(|i| cache.is_cached(&format!("cliff-fill-{i}-[a-z]+"), true)).count();
    assert!(survivors > fill / 2, "only {survivors}/{fill} survived");
}

#[test]
fn a_fetched_pattern_is_cached_under_its_own_case() {
    let mut cache = RegexCache::new();
    let _ = cache.cached_regex("kept", true).expect("compiles");
    assert!(cache.is_cached("kept", true));
    assert!(!cache.is_cached("kept", false));
    assert_eq!(cache.cached_len(true), 1);
}
