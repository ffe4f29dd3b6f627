//! Stubs: the index, matching, response cycles, recording proxies, flow stores.

use rand::rngs::StdRng;
use rand::{Rng, SeedableRng};
use rift_mock_core::copies::{copy_response, copy_stub};
use rift_mock_core::flow_store::{CasOutcome, FlowStore, LocalFlowStore, MemoryFlowStore};
use rift_mock_core::generators::{generate_predicates_from_request, Generation, GeneratorRequest};
use rift_mock_core::imposter::{choose_flow_store, first_failure, FlowStoreChoice, Imposter};
use rift_mock_core::journal::LocalJournal;
use rift_mock_core::json::{Json, JsonObject};
use rift_mock_core::matching::INITIAL_SCENARIO_STATE;
use rift_mock_core::predicate::{
    Answer, Finding, Lookup, MatchError, Predicate, PredicateOperation, PredicateParameters,
    PredicateSelector,
};
use rift_mock_core::proxy;
use rift_mock_core::regex_cache::RegexCache;
use rift_mock_core::snapshot::StubSnapshot;
use rift_mock_core::stub::StubState;
use rift_mock_core::stub_index::{method_slot, pattern_preview};
use rift_mock_core::types::{
    ImposterConfig, IsResponse, PathRewrite, ProxyResponse, RedisConfig, ResponseBehaviors,
    ResponseMode, RiftConfig, RiftFaultConfig, RiftFlowStateConfig, RiftResponseExtension,
    RiftScriptConfig, RiftTcpFault, Stub, StubResponse,
};
use std::cell::Cell;

type LocalImposter = Imposter<LocalFlowStore, LocalJournal>;

fn json(text: &str) -> Json {
    Json::parse(text).unwrap_or_else(|| panic!("not JSON: {text}"))
}

fn object(v: &Json) -> &JsonObject {
    v.as_object().expect("an object")
}

fn text_at(o: &JsonObject, key: &str) -> Option<String> {
    o.get(key).and_then(|v| v.as_text()).cloned()
}

fn flag_at(o: &JsonObject, key: &str) -> Option<bool> {
    o.get(key).and_then(|v| v.as_bool())
}

fn items(v: &Json) -> &Vec<Json> {
    v.as_array().expect("an array")
}

fn read_namespaces(v: &Json) -> Vec<(String, String)> {
    let o = object(v);
    (0..o.len())
        .map(|i| (o.key_at(i).clone(), o.value_at(i).as_text().expect("a namespace").clone()))
        .collect()
}

fn read_predicate(v: &Json) -> Predicate {
    let o = object(v);
    let selector = if let Some(p) = o.get("jsonpath") {
        Some(PredicateSelector::JsonPath { selector: text_at(object(p), "selector").unwrap() })
    } else {
        o.get("xpath").map(|p| PredicateSelector::XPath {
            selector: text_at(object(p), "selector").unwrap(),
            namespaces: object(p).get("ns").map(read_namespaces).unwrap_or_default(),
        })
    };
    let parameters = PredicateParameters {
        case_sensitive: flag_at(o, "caseSensitive"),
        key_case_sensitive: flag_at(o, "keyCaseSensitive"),
        except: text_at(o, "except").unwrap_or_default(),
        selector,
    };
    let fields = |key: &str| o.get(key).map(|v| object(v).copy());
    let operation = if let Some(f) = fields("equals") {
        PredicateOperation::Equals(f)
    } else if let Some(f) = fields("deepEquals") {
        PredicateOperation::DeepEquals(f)
    } else if let Some(f) = fields("contains") {
        PredicateOperation::Contains(f)
    } else if let Some(f) = fields("startsWith") {
        PredicateOperation::StartsWith(f)
    } else if let Some(f) = fields("endsWith") {
        PredicateOperation::EndsWith(f)
    } else if let Some(f) = fields("matches") {
        PredicateOperation::Matches(f)
    } else if let Some(v) = o.get("exists") {
        match v {
            Json::Object(f) => PredicateOperation::Exists(f.copy()),
            _ => panic!("exists takes fields"),
        }
    } else if let Some(v) = o.get("not") {
        PredicateOperation::Not(Box::new(read_predicate(v)))
    } else if let Some(v) = o.get("or") {
        PredicateOperation::Or(items(v).iter().map(read_predicate).collect())
    } else if let Some(v) = o.get("and") {
        PredicateOperation::And(items(v).iter().map(read_predicate).collect())
    } else if let Some(s) = text_at(o, "inject") {
        PredicateOperation::Inject(s)
    } else {
        panic!("no operation in {v:?}")
    };
    Predicate { parameters, operation }
}

fn read_script(v: &Json) -> RiftScriptConfig {
    let o = object(v);
    RiftScriptConfig { engine: text_at(o, "engine"), code: text_at(o, "code") }
}

fn read_response(v: &Json) -> StubResponse {
    let o = object(v);
    if let Some(p) = o.get("proxy") {
        let p = object(p);
        return StubResponse::Proxy {
            proxy: ProxyResponse {
                to: text_at(p, "to").unwrap(),
                mode: text_at(p, "mode").unwrap_or_default(),
                predicate_generators: Vec::new(),
                add_wait_behavior: false,
                add_decorate_behavior: None,
                inject_headers: Vec::new(),
                path_rewrite: None,
            },
        };
    }
    if let Some(s) = text_at(o, "inject") {
        return StubResponse::Inject { inject: s, behaviors: None };
    }
    if let Some(s) = text_at(o, "fault") {
        return StubResponse::Fault { fault: s };
    }
    let script = o.get("_rift").and_then(|x| object(x).get("script")).map(read_script);
    if let Some(is) = o.get("is") {
        let is = object(is);
        let repeat = o
            .get("_behaviors")
            .and_then(|b| object(b).get("repeat"))
            .and_then(|n| n.as_count())
            .map(|n| n as u32);
        let behaviors = repeat.map(|n| ResponseBehaviors {
            wait: None,
            repeat: Some(n),
            copy: Vec::new(),
            lookup: Vec::new(),
            decorate: None,
            shell_transform: Vec::new(),
        });
        let rift = script.map(|s| RiftResponseExtension {
            fault: None,
            script: Some(s),
            templated: false,
        });
        return StubResponse::Is {
            is: IsResponse {
                status_code: is.get("statusCode").and_then(|n| n.as_count()).unwrap_or(200) as u16,
                headers: Vec::new(),
                body: is.get("body").map(|b| b.copy()),
                mode: ResponseMode::Text,
            },
            behaviors,
            rift,
        };
    }
    StubResponse::RiftScript { script: script.expect("a response") }
}

fn read_stub(v: &Json) -> Stub {
    let o = object(v);
    Stub {
        id: text_at(o, "id"),
        predicates: o
            .get("predicates")
            .map(|p| items(p).iter().map(read_predicate).collect())
            .unwrap_or_default(),
        responses: o
            .get("responses")
            .map(|p| items(p).iter().map(read_response).collect())
            .unwrap_or_default(),
        scenario_name: text_at(o, "scenarioName"),
        required_scenario_state: text_at(o, "requiredScenarioState"),
        new_scenario_state: text_at(o, "newScenarioState"),
        space: text_at(o, "space"),
        route_pattern: None,
        recorded_from: None,
    }
}

fn stub(text: &str) -> Stub {
    read_stub(&json(text))
}

fn config(port: u16, stubs: Vec<Stub>) -> ImposterConfig {
    ImposterConfig {
        port: Some(port),
        protocol: "http".to_string(),
        name: None,
        stubs,
        record_requests: false,
        allow_cors: false,
        strict_behaviors: false,
        default_forward: None,
        default_response: None,
        rift: None,
    }
}

fn with_backend(backend: &str, redis: Option<RedisConfig>) -> ImposterConfig {
    let mut c = config(0, Vec::new());
    c.rift = Some(RiftConfig {
        flow_state: Some(RiftFlowStateConfig {
            backend: backend.to_string(),
            ttl_seconds: 300,
            flow_id_source: None,
            redis,
        }),
    });
    c
}

/// An imposter with the stubs of a JSON array.
fn imposter_of(stubs: &str) -> LocalImposter {
    let list = items(&json(stubs)).iter().map(read_stub).collect();
    Imposter::new(config(0, list)).expect("test imposter")
}

/// A stub for each list of predicates.
fn stubs_for<T: AsRef<str>>(preds: &[T]) -> Vec<Stub> {
    preds
        .iter()
        .map(|p| {
            stub(&format!(
                r#"{{"predicates": {}, "responses": [{{"is": {{"statusCode": 200}}}}]}}"#,
                p.as_ref()
            ))
        })
        .collect()
}

fn snapshot<T: AsRef<str>>(preds: &[T]) -> StubSnapshot {
    let mut slot = 0;
    StubSnapshot::build(
        stubs_for(preds)
            .into_iter()
            .map(|s| {
                slot += 1;
                StubState::new(s, slot)
            })
            .collect(),
    )
}

fn imposter<T: AsRef<str>>(preds: &[T]) -> LocalImposter {
    Imposter::new(config(9999, stubs_for(preds))).expect("test imposter")
}

fn candidate_ids(snap: &StubSnapshot, method: &str, path: &str) -> Vec<usize> {
    snap.candidates(method, path).iter()
}

fn candidate_ids_body(snap: &StubSnapshot, method: &str, path: &str, body: &str) -> Vec<usize> {
    snap.candidates_with_body(method, path, Some(&json(body))).iter()
}

/// What a JSONPath that selects nothing was answered.
fn nothing_selected() -> Vec<Finding> {
    vec![Finding {
        lookup: Lookup::JsonPath("$.id".to_string()),
        answer: Answer::Extracted(None),
    }]
}

fn indexed<S: FlowStore>(
    imp: &Imposter<S, LocalJournal>,
    m: &str,
    p: &str,
    q: Option<&str>,
    b: Option<&str>,
) -> Option<usize> {
    let mut cache = RegexCache::new();
    imp.find_matching_stub_with_client(
        m,
        p,
        &Vec::new(),
        q,
        b,
        None,
        None,
        &nothing_selected(),
        &mut cache,
    )
    .expect("no backend error")
    .map(|(_, i)| i)
}

fn linear(
    imp: &LocalImposter,
    m: &str,
    p: &str,
    q: Option<&str>,
    b: Option<&str>,
) -> Option<usize> {
    let mut cache = RegexCache::new();
    imp.find_matching_stub_linear(
        m,
        p,
        &Vec::new(),
        q,
        b,
        None,
        None,
        &nothing_selected(),
        &mut cache,
    )
    .expect("no backend error")
    .map(|(_, i)| i)
}

fn assert_agree(imp: &LocalImposter, requests: &[(&str, &str)]) {
    for (m, p) in requests {
        assert_eq!(
            indexed(imp, m, p, None, None),
            linear(imp, m, p, None, None),
            "index diverged from linear for {m} {p}"
        );
    }
}

fn corpus() -> Vec<&'static str> {
    vec![
        r#"[{"equals": {"path": "/exact"}}]"#,
        r#"[{"equals": {"path": "/EXACT"}}]"#,
        r#"[{"startsWith": {"path": "/pre"}}]"#,
        r#"[{"contains": {"path": "mid"}}]"#,
        r#"[{"matches": {"path": "^/re[0-9]+$"}}]"#,
        r#"[{"exists": {"query": true}}]"#,
        r#"[{"equals": {"method": "POST"}}]"#,
        r#"[{"equals": {"body": "ping"}}]"#,
        r#"[{"or": [{"equals": {"path": "/o1"}}, {"equals": {"path": "/o2"}}]}]"#,
        r#"[{"not": {"equals": {"path": "/nope"}}}]"#,
        r#"[{"equals": {"path": "/cs"}, "caseSensitive": true}]"#,
        r#"[{"equals": {"method": "GET", "path": "/mp"}}]"#,
        "[]",
    ]
}

#[test]
fn indexed_matching_equals_linear() {
    let imp = imposter(&corpus());
    let requests: &[(&str, &str, Option<&str>, Option<&str>)] = &[
        ("GET", "/exact", None, None),
        ("GET", "/EXACT", None, None),
        ("GET", "/eXaCt", None, None),
        ("GET", "/prefixed/deep", None, None),
        ("GET", "/pre", None, None),
        ("GET", "/x-mid-y", None, None),
        ("GET", "/re12", None, None),
        ("GET", "/re", None, None),
        ("GET", "/mp", None, None),
        ("POST", "/mp", None, None),
        ("GET", "/nope", None, None),
        ("GET", "/cs", None, None),
        ("GET", "/CS", None, None),
        ("GET", "/o1", None, None),
        ("GET", "/o2", None, None),
        ("GET", "/anything", Some("a=1"), None),
        ("GET", "/anything", None, Some("ping")),
        ("GET", "/zzz", None, None),
        ("POST", "/zzz", None, None),
        ("GET", "/pre-mid-exact", None, None),
    ];
    for (m, p, q, b) in requests {
        assert_eq!(
            indexed(&imp, m, p, *q, *b),
            linear(&imp, m, p, *q, *b),
            "index diverged from linear for {m} {p} q={q:?} b={b:?}"
        );
    }
}

#[test]
fn indexed_matching_equals_linear_edge_cases() {
    let imp = imposter(&[
        r#"[{"equals": {"path": "/café"}}]"#,
        r#"[{"startsWith": {"path": "/A"}}]"#,
        r#"[{"and": [{"equals": {"method": "GET"}}, {"equals": {"path": "/andp"}}]}]"#,
        r#"[{"equals": {"path": "/exact"}}, {"startsWith": {"path": "/exa"}}]"#,
        r#"[{"contains": {"path": "/seg"}}]"#,
        r#"[{"equals": {"path": "/pm2"}}, {"equals": {"method": "GET"}}]"#,
    ]);
    assert_agree(
        &imp,
        &[
            ("GET", "/café"),
            ("GET", "/CAFÉ"),
            ("GET", "/caFé"),
            ("GET", "/a1"),
            ("GET", "/andp"),
            ("POST", "/andp"),
            ("GET", "/exact"),
            ("GET", "/exa"),
            ("GET", "/x/seg/y"),
            ("GET", "/exact/"),
            ("GET", "/andp/extra"),
            ("GET", "/pm2"),
            ("POST", "/pm2"),
        ],
    );
}

#[test]
fn stub_index_narrows_and_covers() {
    let snap = snapshot(&corpus());
    let cands = candidate_ids(&snap, "GET", "/exact");
    assert!(!cands.contains(&2));
    assert!(!cands.contains(&11));
    assert!(!cands.contains(&6));
    assert!(!cands.contains(&4));
    assert!(cands.contains(&0) && cands.contains(&1));
    for fb in [5, 7, 8, 9, 10, 12] {
        assert!(cands.contains(&fb), "un-indexable stub {fb} must always be a candidate");
    }
    let mut sorted = cands.clone();
    sorted.sort_unstable();
    sorted.dedup();
    assert_eq!(cands, sorted);
}

#[test]
fn method_dimension_collapses_candidates() {
    let snap = snapshot(&[
        r#"[{"equals": {"method": "GET"}}]"#,
        r#"[{"equals": {"method": "POST"}}]"#,
        r#"[{"equals": {"method": "PUT"}}]"#,
        r#"[{"equals": {"method": "DELETE"}}]"#,
    ]);
    for (i, m) in ["GET", "POST", "PUT", "DELETE"].iter().enumerate() {
        let c = snap.candidates(m, "/anything");
        assert_eq!(c.count(), 1);
        assert!(c.contains(i));
    }
    assert_eq!(snap.candidates("PATCH", "/anything").count(), 0);
    assert!(snap.candidates("get", "/anything").contains(0));
}

#[test]
fn ineligible_method_shapes_are_always_candidates() {
    let snap = snapshot(&[
        r#"[{"equals": {"method": "GET"}}]"#,
        r#"[{"or": [{"equals": {"method": "GET"}}, {"equals": {"method": "POST"}}]}]"#,
        r#"[{"not": {"equals": {"method": "GET"}}}]"#,
        r#"[{"and": [{"equals": {"method": "GET"}}, {"equals": {"path": "/x"}}]}]"#,
        r#"[{"equals": {"method": "GET"}, "except": "X"}]"#,
        r#"[{"equals": {"method": "GET"}, "caseSensitive": true}]"#,
        r#"[{"matches": {"method": "^G"}}]"#,
        r#"[{"equals": {"method": 7}}]"#,
        r#"[{"equals": {"method": "GET"}, "jsonpath": {"selector": "$.id"}}]"#,
        "[]",
    ]);
    let c = snap.candidates("PATCH", "/x");
    assert!(!c.contains(0));
    for i in [1, 2, 3, 4, 5, 6, 7, 8, 9] {
        assert!(c.contains(i), "stub {i} is un-indexable → always a candidate");
    }
}

#[test]
fn selector_scoped_path_predicates_are_always_candidates() {
    let snap = snapshot(&[
        r#"[{"equals": {"path": "/a"}, "jsonpath": {"selector": "$.id"}}]"#,
        r#"[{"equals": {"path": "/a"}, "except": "X"}]"#,
        r#"[{"equals": {"path": "/a"}, "caseSensitive": true}]"#,
        r#"[{"equals": {"path": "/a"}}]"#,
    ]);
    let c = snap.candidates("GET", "/other");
    for i in [0, 1, 2] {
        assert!(c.contains(i), "stub {i} is un-indexable → always a candidate");
    }
    assert!(!c.contains(3));
}

#[test]
fn non_ascii_case_folding_matches_the_evaluator() {
    let imp = imposter(&[
        r#"[{"startsWith": {"path": "/ΟΣ"}}]"#,
        r#"[{"contains": {"path": "ΑΣ"}}]"#,
        r#"[{"equals": {"path": "/İ"}}]"#,
    ]);
    assert_agree(
        &imp,
        &[
            ("GET", "/ΟΣΑ"),
            ("GET", "/ΟΣ"),
            ("GET", "/οσα"),
            ("GET", "/xΑΣy"),
            ("GET", "/İ"),
            ("GET", "/i̇"),
        ],
    );
}

#[test]
fn unnamed_methods_share_the_other_slot_soundly() {
    let snap = snapshot(&[
        r#"[{"equals": {"method": "TRACE"}}]"#,
        r#"[{"equals": {"method": "CONNECT"}}]"#,
        r#"[{"equals": {"method": "GET"}}]"#,
    ]);
    for m in ["TRACE", "CONNECT"] {
        let c = snap.candidates(m, "/x");
        assert!(c.contains(0) && c.contains(1), "{m}: Other-slot stubs kept");
        assert!(!c.contains(2), "{m}: the GET stub is still pruned");
    }
    let imp = imposter(&[
        r#"[{"equals": {"method": "TRACE"}}]"#,
        r#"[{"equals": {"method": "CONNECT"}}]"#,
    ]);
    assert_eq!(indexed(&imp, "CONNECT", "/x", None, None), Some(1));
}

#[test]
fn snapshot_stubs_and_index_are_one_unit() {
    let mut imp = imposter(&[r#"[{"equals": {"path": "/a"}}]"#]);
    for n in 1..6usize {
        let snap = imp.snapshot();
        assert_eq!(snap.stubs().len(), snap.index().len());
        let c = snap.candidates("GET", "/a");
        assert!(c.iter().into_iter().all(|i| i < snap.stubs().len()));
        let added = stub(&format!(
            r#"{{"predicates": [{{"equals": {{"path": "/p{n}"}}}}],
                 "responses": [{{"is": {{"statusCode": 200}}}}]}}"#
        ));
        imp.insert_generated_stub(added, usize::MAX);
    }
    let snap = imp.snapshot();
    assert_eq!(snap.stubs().len(), 6);
    assert_eq!(snap.index().len(), 6);
}

#[test]
fn index_rebuilt_on_replace_stubs() {
    let mut imp = imposter(&[r#"[{"equals": {"path": "/old"}}]"#]);
    assert_eq!(indexed(&imp, "GET", "/old", None, None), Some(0));
    imp.replace_stubs(stubs_for(&[r#"[{"equals": {"path": "/new"}}]"#]));
    assert_eq!(indexed(&imp, "GET", "/old", None, None), None);
    assert_eq!(indexed(&imp, "GET", "/new", None, None), Some(0));
}

#[test]
fn match_all_before_anchor_wins() {
    let imp = imposter(&["[]", r#"[{"equals": {"path": "/a"}}]"#]);
    assert_eq!(linear(&imp, "GET", "/a", None, None), Some(0));
    assert_eq!(indexed(&imp, "GET", "/a", None, None), Some(0));
}

fn random_corpus(rng: &mut StdRng, n: usize) -> Vec<String> {
    const METHODS: &[&str] = &["GET", "POST", "PUT", "DELETE", "PATCH", "HEAD", "TRACE"];
    const SEGS: &[&str] = &["/a", "/b", "/api/v1", "/api/v2", "/x/y", "/mid"];
    (0..n)
        .map(|_| {
            let seg = SEGS[rng.gen_range(0..SEGS.len())];
            let m = METHODS[rng.gen_range(0..METHODS.len())];
            match rng.gen_range(0..32) {
                0 => format!(r#"[{{"equals": {{"method": "{m}", "path": "{seg}"}}}}]"#),
                1 => format!(
                    r#"[{{"equals": {{"method": "{m}"}}}}, {{"equals": {{"path": "{seg}"}}}}]"#
                ),
                2 => format!(r#"[{{"equals": {{"method": "{m}"}}}}]"#),
                3 => format!(r#"[{{"equals": {{"path": "{seg}"}}}}]"#),
                4 => format!(r#"[{{"startsWith": {{"path": "{seg}"}}}}]"#),
                5 => format!(r#"[{{"contains": {{"path": "{seg}"}}}}]"#),
                6 => format!(r#"[{{"matches": {{"path": "^{seg}[0-9]*$"}}}}]"#),
                7 => format!(r#"[{{"matches": {{"path": "^{seg}$"}}, "caseSensitive": true}}]"#),
                8 => format!(r#"[{{"matches": {{"path": "(?i)^{seg}[0-9]*$"}}}}]"#),
                9 => format!(r#"[{{"matches": {{"path": "(?-i)^{seg}[0-9]*$"}}}}]"#),
                10 => r#"[{"matches": {"path": "[0-9]+"}}]"#.to_string(),
                11 => format!(r#"[{{"matches": {{"path": "^{seg}$", "except": "X"}}}}]"#),
                12 => format!(
                    r#"[{{"matches": {{"path": "^{seg}$"}}, "jsonpath": {{"selector": "$.id"}}}}]"#
                ),
                13 => r#"[{"matches": {"path": 7}}]"#.to_string(),
                14 => r#"[{"matches": {"path": "^/unclosed["}}]"#.to_string(),
                15 => format!(
                    r#"[{{"or": [{{"equals": {{"method": "{m}"}}}}, {{"matches": {{"path": "^{seg}$"}}}}]}}]"#
                ),
                16 => format!(r#"[{{"not": {{"equals": {{"path": "{seg}"}}}}}}]"#),
                17 => format!(r#"[{{"equals": {{"method": "{m}"}}, "caseSensitive": true}}]"#),
                18 => format!(r#"[{{"equals": {{"method": "{m}"}}, "except": "X"}}]"#),
                20 => format!(r#"[{{"endsWith": {{"path": "{seg}"}}}}]"#),
                21 => format!(r#"[{{"startsWith": {{"path": "{seg}"}}, "caseSensitive": true}}]"#),
                22 => format!(r#"[{{"contains": {{"path": "{seg}"}}, "caseSensitive": true}}]"#),
                23 => format!(r#"[{{"endsWith": {{"path": "{seg}"}}, "caseSensitive": true}}]"#),
                24 => r#"[{"contains": {"path": ""}}]"#.to_string(),
                25 => r#"[{"startsWith": {"path": ""}}]"#.to_string(),
                26 => r#"[{"contains": {"path": "/"}}]"#.to_string(),
                27 => format!(
                    r#"[{{"startsWith": {{"path": "{}"}}}}]"#,
                    &seg[..2.min(seg.len())]
                ),
                19 => format!(r#"[{{"matches": {{"path": "^{seg}"}}}}]"#),
                28 => r#"[{"deepEquals": {"body": {"k": 1}}}]"#.to_string(),
                29 => r#"[{"deepEquals": {"body": [1, 2]}}]"#.to_string(),
                30 => r#"[{"deepEquals": {"body": {"n": {"a": 1}}}}]"#.to_string(),
                31 => r#"[{"deepEquals": {"body": {"k": 1}}, "caseSensitive": true}]"#.to_string(),
                _ => "[]".to_string(),
            }
        })
        .collect()
}

#[test]
fn differential_index_matches_linear_oracle() {
    const METHODS: &[&str] = &["GET", "POST", "PUT", "DELETE", "PATCH", "HEAD", "TRACE", "get"];
    const PATHS: &[&str] = &[
        "/a",
        "/b",
        "/A",
        "/api/v1",
        "/api/v2",
        "/api/v1/deep",
        "/x/y",
        "/x-mid-y",
        "/mid",
        "/zzz",
        "/a0",
        "/GETX",
    ];
    let mut rng = StdRng::seed_from_u64(0x0707_5EED);
    for corpus_n in 0..8 {
        let imp = imposter(&random_corpus(&mut rng, 40));
        let mut cache = RegexCache::new();
        let no_headers = Vec::new();
        let findings = nothing_selected();
        for _ in 0..1250 {
            let m = METHODS[rng.gen_range(0..METHODS.len())];
            let p = PATHS[rng.gen_range(0..PATHS.len())];
            let body = match rng.gen_range(0..8) {
                0 => Some("ping"),
                1 => Some(r#"{"k":1}"#),
                2 => Some(r#"{"k":"1"}"#),
                3 => Some(r#"[1,2]"#),
                4 => Some(r#"{"n":{"a":1}}"#),
                5 => Some(r#"{"j":"{\"x\":1}"}"#),
                6 => None,
                _ => None,
            };
            let query = if rng.gen_bool(0.25) { Some("a=1") } else { None };
            let linear = imp
                .find_matching_stub_linear(
                    m, p, &no_headers, query, body, None, None, &findings, &mut cache,
                )
                .expect("no backend error")
                .map(|(_, i)| i);
            let indexed = imp
                .find_matching_stub_with_client(
                    m, p, &no_headers, query, body, None, None, &findings, &mut cache,
                )
                .expect("no backend error")
                .map(|(_, i)| i);
            assert_eq!(
                indexed, linear,
                "index diverged: corpus {corpus_n}, {m} {p} q={query:?} b={body:?}"
            );
        }
    }
}

#[test]
fn literal_dimension_collapses_candidates() {
    let mut preds: Vec<String> = Vec::new();
    for i in 0..200 {
        preds.push(format!(r#"[{{"startsWith": {{"path": "/pre{i}/"}}}}]"#));
        preds.push(format!(r#"[{{"contains": {{"path": "~mid{i}~"}}}}]"#));
        preds.push(format!(r#"[{{"endsWith": {{"path": "/end{i}"}}}}]"#));
    }
    let snap = snapshot(&preds);
    let c = snap.candidates("GET", "/pre199/detail");
    assert_eq!(c.count(), 1);
    assert!(c.contains(199 * 3));
    let c = snap.candidates("GET", "/x~mid150~y");
    assert_eq!(c.count(), 1);
    assert!(c.contains(150 * 3 + 1));
    let c = snap.candidates("GET", "/whatever/end42");
    assert_eq!(c.count(), 1);
    assert!(c.contains(42 * 3 + 2));
    assert_eq!(snap.candidates("GET", "/nothing").count(), 0);
}

#[test]
fn overlapping_literals_are_all_candidates() {
    let snap = snapshot(&[
        r#"[{"startsWith": {"path": "/api"}}]"#,
        r#"[{"startsWith": {"path": "/api/v1"}}]"#,
        r#"[{"contains": {"path": "api"}}]"#,
        r#"[{"contains": {"path": "api/v1/x"}}]"#,
        r#"[{"endsWith": {"path": "/x"}}]"#,
        r#"[{"endsWith": {"path": "v1/x"}}]"#,
        r#"[{"contains": {"path": "/"}}]"#,
    ]);
    let c = snap.candidates("GET", "/api/v1/x");
    for i in 0..7 {
        assert!(c.contains(i), "stub {i}'s literal matches /api/v1/x and must survive");
    }
}

#[test]
fn empty_literal_always_matches() {
    let preds = [
        r#"[{"contains": {"path": ""}}]"#,
        r#"[{"startsWith": {"path": ""}}]"#,
        r#"[{"endsWith": {"path": ""}}]"#,
    ];
    let imp = imposter(&preds);
    for (m, p) in [("GET", "/anything"), ("GET", "/"), ("POST", "/x/y/z")] {
        let by_scan = linear(&imp, m, p, None, None);
        assert_eq!(indexed(&imp, m, p, None, None), by_scan);
        assert_eq!(by_scan, Some(0));
    }
    let c = snapshot(&preds).candidates("GET", "/zzz");
    for i in 0..3 {
        assert!(c.contains(i));
    }
}

#[test]
fn literal_case_semantics_match_the_evaluator() {
    let imp = imposter(&[
        r#"[{"startsWith": {"path": "/Pre"}}]"#,
        r#"[{"startsWith": {"path": "/Pre2"}, "caseSensitive": true}]"#,
        r#"[{"contains": {"path": "MiD"}}]"#,
        r#"[{"contains": {"path": "MiD2"}, "caseSensitive": true}]"#,
        r#"[{"endsWith": {"path": "/End"}}]"#,
        r#"[{"endsWith": {"path": "/End2"}, "caseSensitive": true}]"#,
        r#"[{"startsWith": {"path": "/ΟΣ"}}]"#,
        r#"[{"contains": {"path": "ΑΣ"}}]"#,
    ]);
    assert_agree(
        &imp,
        &[
            ("GET", "/pre/x"),
            ("GET", "/PRE/x"),
            ("GET", "/Pre2/x"),
            ("GET", "/pre2/x"),
            ("GET", "/a-mid-b"),
            ("GET", "/a-MiD-b"),
            ("GET", "/a-MiD2-b"),
            ("GET", "/a-mid2-b"),
            ("GET", "/x/end"),
            ("GET", "/x/END"),
            ("GET", "/x/End2"),
            ("GET", "/x/end2"),
            ("GET", "/ΟΣΑ"),
            ("GET", "/οσα"),
            ("GET", "/xΑΣy"),
        ],
    );
}

#[test]
fn ineligible_literal_shapes_are_always_candidates() {
    let snap = snapshot(&[
        r#"[{"startsWith": {"path": "/idx"}}]"#,
        r#"[{"startsWith": {"path": "/x"}, "except": "Y"}]"#,
        r#"[{"contains": {"path": "/x"}, "jsonpath": {"selector": "$.id"}}]"#,
        r#"[{"or": [{"startsWith": {"path": "/x"}}, {"equals": {"path": "/y"}}]}]"#,
        r#"[{"not": {"contains": {"path": "/x"}}}]"#,
        r#"[{"and": [{"endsWith": {"path": "/x"}}, {"equals": {"method": "GET"}}]}]"#,
        r#"[{"contains": {"body": "ping"}}]"#,
        r#"[{"startsWith": {"path": 7}}]"#,
    ]);
    let c = snap.candidates("GET", "/other");
    assert!(!c.contains(0));
    for i in 1..8 {
        assert!(c.contains(i), "stub {i} is un-indexable → must always be a candidate");
    }
}

#[test]
fn regex_dimension_collapses_candidates() {
    let preds: Vec<String> = (0..100)
        .map(|i| format!(r#"[{{"matches": {{"path": "^/api/endpoint{i}$"}}}}]"#))
        .collect();
    let snap = snapshot(&preds);
    for target in [0usize, 42, 99] {
        let c = snap.candidates("GET", &format!("/api/endpoint{target}"));
        assert_eq!(c.count(), 1);
        assert!(c.contains(target));
    }
    assert_eq!(snap.candidates("GET", "/nothing").count(), 0);
}

#[test]
fn regex_scratch_reuse_is_correct() {
    let big: Vec<String> =
        (0..100).map(|i| format!(r#"[{{"matches": {{"path": "^/e{i}$"}}}}]"#)).collect();
    let big_snap = snapshot(&big);
    assert_eq!(candidate_ids(&big_snap, "GET", "/e42"), vec![42]);
    let small =
        snapshot(&[r#"[{"matches": {"path": "^/only$"}}]"#, r#"[{"matches": {"path": "^/other$"}}]"#]);
    assert_eq!(candidate_ids(&small, "GET", "/only"), vec![0]);
    assert!(candidate_ids(&small, "GET", "/nomatch").is_empty());
    let mixed = snapshot(&[
        r#"[{"matches": {"path": "^/mix$"}}]"#,
        r#"[{"matches": {"path": "^/MIX$"}, "caseSensitive": true}]"#,
    ]);
    assert_eq!(candidate_ids(&mixed, "GET", "/mix"), vec![0]);
    assert_eq!(candidate_ids(&mixed, "GET", "/MIX"), vec![0, 1]);
    assert_eq!(candidate_ids(&big_snap, "GET", "/e7"), vec![7]);
}

#[test]
fn path_dimension_fast_path_matches_regardless_of_case() {
    let snap =
        snapshot(&[r#"[{"equals": {"path": "/users"}}]"#, r#"[{"equals": {"path": "/Admin"}}]"#]);
    assert_eq!(candidate_ids(&snap, "GET", "/users"), vec![0]);
    assert_eq!(candidate_ids(&snap, "GET", "/ADMIN"), vec![1]);
    assert_eq!(candidate_ids(&snap, "GET", "/admin"), vec![1]);
    assert!(candidate_ids(&snap, "GET", "/nope").is_empty());
}

#[test]
fn overlapping_patterns_are_all_candidates() {
    let snap = snapshot(&[
        r#"[{"matches": {"path": "^/api"}}]"#,
        r#"[{"matches": {"path": "^/api/v1$"}}]"#,
        r#"[{"matches": {"path": "[0-9]+"}}]"#,
        r#"[{"matches": {"path": "^/a[0-9]*$"}}]"#,
    ]);
    let c = snap.candidates("GET", "/api/v1");
    assert!(c.contains(0) && c.contains(1));
    let c = snap.candidates("GET", "/a0");
    assert!(c.contains(2) && c.contains(3));
    let imp = imposter(&[
        r#"[{"matches": {"path": "^/api"}}, {"equals": {"method": "POST"}}]"#,
        r#"[{"matches": {"path": "^/api/v1$"}}]"#,
    ]);
    assert_eq!(indexed(&imp, "GET", "/api/v1", None, None), Some(1));
}

#[test]
fn regex_dimension_case_semantics_match_the_evaluator() {
    let imp = imposter(&[
        r#"[{"matches": {"path": "^/Case$"}}]"#,
        r#"[{"matches": {"path": "^/Case2$"}, "caseSensitive": true}]"#,
        r#"[{"matches": {"path": "(?i)^/inline$"}, "caseSensitive": true}]"#,
        r#"[{"matches": {"path": "(?-i)^/noinline$"}}]"#,
        r#"[{"matches": {"path": "^/ünï$"}}]"#,
        r#"[{"matches": {"path": "^/STRASSE$"}}]"#,
    ]);
    assert_agree(
        &imp,
        &[
            ("GET", "/case"),
            ("GET", "/Case"),
            ("GET", "/CASE"),
            ("GET", "/case2"),
            ("GET", "/Case2"),
            ("GET", "/inline"),
            ("GET", "/INLINE"),
            ("GET", "/noinline"),
            ("GET", "/NOINLINE"),
            ("GET", "/ünï"),
            ("GET", "/ÜNÏ"),
            ("GET", "/strasse"),
            ("GET", "/STRASSE"),
            ("GET", "/straße"),
        ],
    );
}

#[test]
fn ineligible_regex_shapes_are_always_candidates() {
    let snap = snapshot(&[
        r#"[{"matches": {"path": "^/idx$"}}]"#,
        r#"[{"matches": {"path": "^/x$"}, "except": "Y"}]"#,
        r#"[{"matches": {"path": "^/x$"}, "jsonpath": {"selector": "$.id"}}]"#,
        r#"[{"or": [{"matches": {"path": "^/x$"}}, {"equals": {"path": "/y"}}]}]"#,
        r#"[{"not": {"matches": {"path": "^/x$"}}}]"#,
        r#"[{"and": [{"matches": {"path": "^/x$"}}, {"equals": {"method": "GET"}}]}]"#,
        r#"[{"matches": {"body": "^ping$"}}]"#,
        r#"[{"matches": {"path": 7}}]"#,
        r#"[{"matches": {"path": "^/unclosed["}}]"#,
    ]);
    let c = snap.candidates("GET", "/other");
    assert!(!c.contains(0));
    for i in [1, 2, 3, 4, 5, 6, 7, 8] {
        assert!(c.contains(i), "stub {i} is un-indexable → must always be a candidate");
    }
}

#[test]
fn invalid_pattern_does_not_disable_the_dimension() {
    let preds = [
        r#"[{"matches": {"path": "^/good1$"}}]"#,
        r#"[{"matches": {"path": "^/unclosed["}}]"#,
        r#"[{"matches": {"path": "^/good2$"}}]"#,
    ];
    let imp = imposter(&preds);
    assert_agree(
        &imp,
        &[("GET", "/good1"), ("GET", "/good2"), ("GET", "/unclosed["), ("GET", "/other")],
    );
    let c = snapshot(&preds).candidates("GET", "/good1");
    assert!(c.contains(0));
    assert!(!c.contains(2));
    assert!(c.contains(1));
}

fn oversized() -> String {
    format!("^/{}$", r"\\p{L}{5000}".repeat(4))
}

#[test]
fn oversized_regex_set_falls_back_to_always_bits() {
    let preds = [
        format!(r#"[{{"matches": {{"path": "{}"}}}}]"#, oversized()),
        r#"[{"matches": {"path": "^/small$"}}]"#.to_string(),
    ];
    let imp = imposter(&preds);
    assert_agree(&imp, &[("GET", "/small"), ("GET", "/abc"), ("GET", "/other")]);
    let c = snapshot(&preds).candidates("GET", "/nothing-matches");
    assert!(c.contains(0));
    assert!(!c.contains(1));
}

#[test]
fn rejected_pattern_warns_at_build_naming_the_stub() {
    let snap = snapshot(&[
        r#"[{"matches": {"path": "^/small$"}}]"#.to_string(),
        format!(r#"[{{"matches": {{"path": "{}"}}}}]"#, oversized()),
    ]);
    let rejected = snap.index().rejected();
    assert_eq!(rejected.len(), 1);
    assert_eq!(rejected[0].0, 1, "the stub that lost its index is named");
    assert!(rejected[0].1.starts_with("^/"), "its pattern is shown: {}", rejected[0].1);
}

#[test]
fn previews_are_cut_at_a_character() {
    assert_eq!(pattern_preview("^/short$"), "^/short$");
    let long = "ä".repeat(60);
    let preview = pattern_preview(&long);
    assert!(preview.len() < long.len());
    assert!(preview.starts_with(&"ä".repeat(40)));
}

#[test]
fn methods_have_slots() {
    assert_eq!(method_slot("GET"), method_slot("get"));
    assert_ne!(method_slot("GET"), method_slot("POST"));
    assert_eq!(method_slot("TRACE"), method_slot("CONNECT"));
}

#[test]
fn has_scenario_gate_detects_required_scenario_state() {
    let ungated = imposter_of(
        r#"[{"predicates": [{"equals": {"path": "/a"}}], "responses": [{"is": {"statusCode": 200}}]}]"#,
    );
    assert!(!ungated.snapshot().has_scenario_gate());
    let gated = imposter_of(
        r#"[{
            "predicates": [{"equals": {"path": "/a"}}],
            "scenarioName": "sc",
            "requiredScenarioState": "started",
            "responses": [{"is": {"statusCode": 200}}]
        }]"#,
    );
    assert!(gated.snapshot().has_scenario_gate());
}

#[test]
fn has_inject_detects_top_level_and_nested() {
    let scriptless = snapshot(&[
        r#"[{"equals": {"path": "/a"}}]"#,
        r#"[{"and": [{"equals": {"path": "/b"}}, {"exists": {"query": {"q": true}}}]}]"#,
    ]);
    assert!(!scriptless.has_inject());
    let top_level = snapshot(&[
        r#"[{"equals": {"path": "/a"}}]"#,
        r#"[{"inject": "function (config) { return true; }"}]"#,
    ]);
    assert!(top_level.has_inject());
    let under_and = snapshot(&[
        r#"[{"and": [{"equals": {"path": "/a"}}, {"inject": "function (config) { return true; }"}]}]"#,
    ]);
    assert!(under_and.has_inject());
    let under_not_in_or = snapshot(&[
        r#"[{"or": [{"equals": {"path": "/a"}}, {"not": {"inject": "function (config) { return true; }"}}]}]"#,
    ]);
    assert!(under_not_in_or.has_inject());
}

fn deep_body(expected: &str) -> String {
    format!(r#"[{{"deepEquals": {{"body": {expected}}}}}]"#)
}

#[test]
fn body_dimension_collapses_candidates() {
    let preds: Vec<String> =
        (0..500).map(|i| deep_body(&format!(r#"{{"id": {i}, "kind": "order"}}"#))).collect();
    let snap = snapshot(&preds);
    let target = 437usize;
    let ids =
        candidate_ids_body(&snap, "POST", "/x", &format!(r#"{{"id": {target}, "kind": "order"}}"#));
    assert_eq!(ids, vec![target]);
    assert!(
        candidate_ids_body(&snap, "POST", "/x", r#"{"id": 9999, "kind": "order"}"#).is_empty()
    );
}

#[test]
fn body_dimension_matches_across_coercion_key_order_and_case() {
    let snap = snapshot(&[deep_body(r#"{"a": 1, "b": "x"}"#), deep_body(r#"{"a": 2}"#)]);
    assert_eq!(candidate_ids_body(&snap, "POST", "/p", r#"{"B": "X", "a": "1"}"#), vec![0]);
}

#[test]
fn body_dimension_ineligible_stubs_are_never_pruned() {
    let snap = snapshot(&[
        r#"[{"deepEquals": {"body": {"a": 1}}, "caseSensitive": true}]"#.to_string(),
        r#"[{"deepEquals": {"body": {"a": 1}}, "keyCaseSensitive": true}]"#.to_string(),
        r#"[{"deepEquals": {"body": {"a": 1}}, "jsonpath": {"selector": "$.x"}}]"#.to_string(),
        r#"[{"deepEquals": {"body": "hello"}}]"#.to_string(),
        r#"[{"deepEquals": {"body": {"a": "{\"k\":1}"}}}]"#.to_string(),
        r#"[{"deepEquals": {"body": {"a": 1}}, "except": "x"}]"#.to_string(),
        deep_body(r#"{"eligible": true}"#),
    ]);
    let hit = candidate_ids_body(&snap, "POST", "/p", r#"{"eligible": true}"#);
    assert_eq!(hit, vec![0, 1, 2, 3, 4, 5, 6]);
    let miss = candidate_ids_body(&snap, "POST", "/p", r#"{"zzz": 0}"#);
    assert_eq!(miss, vec![0, 1, 2, 3, 4, 5]);
}

#[test]
fn body_dimension_non_json_body_excludes_indexed_stubs() {
    let snap =
        snapshot(&[deep_body(r#"{"a": 1}"#), r#"[{"equals": {"path": "/p"}}]"#.to_string()]);
    assert_eq!(candidate_ids(&snap, "GET", "/p"), vec![1]);
}

#[test]
fn body_dimension_json_in_string_request_widens() {
    let snap = snapshot(&[deep_body(r#"{"a": {"b": 1}}"#), deep_body(r#"{"z": 9}"#)]);
    assert_eq!(candidate_ids_body(&snap, "POST", "/p", r#"{"a": "{\"b\":1}"}"#), vec![0, 1]);
}

#[test]
fn hot_path_value_query_predicate_matches() {
    let imp = imposter_of(
        r#"[{"predicates": [{"equals": {"query": {"status": "active"}}}],
             "responses": [{"is": {"statusCode": 200}}]}]"#,
    );
    assert_eq!(indexed(&imp, "GET", "/x", Some("status=active"), None), Some(0));
    assert_eq!(indexed(&imp, "GET", "/x", Some("status=inactive"), None), None);
}

#[test]
fn find_matching_stub_with_client_matches_on_prebuilt_header_map() {
    let imp = imposter_of(
        r#"[{"predicates": [{"equals": {"headers": {"X-Api-Key": "secret"}}}],
             "responses": [{"is": {"statusCode": 200, "body": "ok"}}]}]"#,
    );
    let find = |value: &str| {
        let headers = vec![("X-Api-Key".to_string(), vec![value.to_string()])];
        let mut cache = RegexCache::new();
        imp.find_matching_stub_with_client(
            "GET", "/", &headers, None, None, None, None, &Vec::new(), &mut cache,
        )
        .expect("store is infallible")
        .is_some()
    };
    assert!(find("secret"));
    assert!(!find("nope"));
}

#[test]
fn a_client_can_be_matched_where_it_is_known() {
    let imp = imposter_of(
        r#"[{"predicates": [{"equals": {"ip": "10.0.0.7"}}],
             "responses": [{"is": {"statusCode": 200}}]}]"#,
    );
    let mut cache = RegexCache::new();
    let none = Vec::new();
    assert!(imp
        .find_matching_stub("GET", "/", &Vec::new(), None, None, &none, &mut cache)
        .expect("no error")
        .is_none());
    assert_eq!(
        imp.find_matching_stub_with_client(
            "GET",
            "/",
            &Vec::new(),
            None,
            None,
            Some("10.0.0.7:4000"),
            Some("10.0.0.7"),
            &none,
            &mut cache,
        )
        .expect("no error")
        .map(|(_, i)| i),
        Some(0)
    );
}

#[test]
fn bare_scenario_name_provisions_a_real_flow_store() {
    let mut imp = imposter_of(
        r#"[{"scenarioName": "order", "responses": [{"is": {"statusCode": 200}}]}]"#,
    );
    let flow = imp.resolve_flow_id(&Vec::new());
    imp.set_scenario_state(&flow, "order", "paid").expect("set scenario state");
    assert_eq!(imp.scenario_state(&flow, "order").expect("read scenario state"), "paid");
}

#[test]
fn stub_warnings_cached_until_mutation() {
    let mut imp = imposter_of(
        r#"[{"predicates": [{"equals": {"path": "/dup"}}],
             "responses": [{"is": {"statusCode": 200, "body": "x"}}]},
            {"predicates": [{"equals": {"path": "/dup"}}],
             "responses": [{"is": {"statusCode": 200, "body": "x"}}]}]"#,
    );
    let runs = Cell::new(0);
    let analysis = |stubs: &Vec<StubState>| {
        runs.set(runs.get() + 1);
        if stubs.len() > 1 {
            vec!["exact duplicate".to_string()]
        } else {
            Vec::new()
        }
    };
    assert!(!imp.stub_warnings(analysis).is_empty(), "duplicate stubs must be flagged");
    assert_eq!(imp.stub_warnings(analysis).len(), 1);
    assert_eq!(runs.get(), 1, "repeated reads must not analyse again");
    imp.replace_stubs(vec![stub(
        r#"{"predicates": [{"equals": {"path": "/only"}}],
            "responses": [{"is": {"statusCode": 200, "body": "y"}}]}"#,
    )]);
    assert!(imp.stub_warnings(analysis).is_empty());
    assert_eq!(runs.get(), 2, "a stub mutation must invalidate the kept warnings");
}

#[test]
fn explicit_redis_without_config_block_fails_construction() {
    assert!(Imposter::new(with_backend("redis", None)).is_err());
}

#[test]
fn explicit_redis_without_feature_fails_construction() {
    let redis = RedisConfig {
        url: "redis://localhost:6379".to_string(),
        pool_size: 10,
        key_prefix: "rift:".to_string(),
    };
    assert!(Imposter::new(with_backend("redis", Some(redis))).is_err());
}

#[test]
fn script_stub_without_flow_state_auto_provisions_in_memory() {
    let mut imp = imposter_of(
        r#"[{"responses": [{"is": {"statusCode": 200},
            "_rift": {"script": {"engine": "rhai", "code": "fn respond(ctx) { pass() }"}}}]}]"#,
    );
    assert_eq!(imp.flow_store.increment("f", "attempts").expect("incr"), 1);
    assert_eq!(imp.flow_store.increment("f", "attempts").expect("incr"), 2);
}

#[test]
fn script_only_response_without_flow_state_auto_provisions_in_memory() {
    let mut imp = imposter_of(
        r#"[{"responses": [
            {"_rift": {"script": {"engine": "rhai", "code": "fn respond(ctx) { http(200) }"}}}]}]"#,
    );
    assert_eq!(imp.flow_store.increment("f", "attempts").expect("incr"), 1);
    assert_eq!(imp.flow_store.increment("f", "attempts").expect("incr"), 2);
}

#[test]
fn plain_stub_without_flow_state_stays_noop() {
    let mut imp = imposter_of(r#"[{"responses": [{"is": {"statusCode": 200}}]}]"#);
    assert_eq!(imp.flow_store.increment("f", "attempts").expect("incr"), 1);
    assert_eq!(imp.flow_store.increment("f", "attempts").expect("incr"), 1);
}

#[test]
fn implicit_noop_construction_succeeds_silently() {
    assert!(Imposter::new(config(0, Vec::new())).is_ok());
}

#[test]
fn inmemory_backend_construction_succeeds() {
    assert!(Imposter::new(with_backend("inmemory", None)).is_ok());
}

#[test]
fn explicit_unknown_backend_fails_construction() {
    match Imposter::new(with_backend("postgres", None)) {
        Err(e) => assert_eq!(
            e,
            "flowState.backend is \"postgres\" but no such backend exists (expected \"inmemory\" or \"redis\")"
        ),
        Ok(_) => panic!("an unknown backend must fail construction"),
    }
}

#[test]
fn the_store_that_is_asked_for() {
    assert!(matches!(choose_flow_store(&config(0, Vec::new())), Ok(FlowStoreChoice::NoOp)));
    assert!(matches!(
        choose_flow_store(&with_backend("inmemory", None)),
        Ok(FlowStoreChoice::InMemory { ttl_seconds: 300 })
    ));
}

fn body_of(r: &StubResponse) -> String {
    match r {
        StubResponse::Is { is, .. } => {
            is.body.as_ref().and_then(|b| b.as_text()).expect("string body").clone()
        }
        other => panic!("not a fixed response: {other:?}"),
    }
}

fn served_body(imp: &mut LocalImposter, at: usize) -> String {
    let turn = imp.advance(at).expect("stub has responses");
    body_of(&imp.stubs()[at].stub.responses[turn])
}

const AB: &str = r#"[{
    "id": "s1",
    "predicates": [{"equals": {"path": "/c"}}],
    "responses": [{"is": {"statusCode": 200, "body": "A"}}, {"is": {"statusCode": 200, "body": "B"}}]
}]"#;

const CD: &str = r#"{
    "predicates": [{"equals": {"path": "/c"}}],
    "responses": [{"is": {"statusCode": 200, "body": "C"}}, {"is": {"statusCode": 200, "body": "D"}}]
}"#;

#[test]
fn replace_stub_preserves_response_cursor() {
    let mut imp = imposter_of(AB);
    assert_eq!(served_body(&mut imp, 0), "A");
    imp.replace_stub(0, stub(CD)).expect("index in bounds");
    assert_eq!(served_body(&mut imp, 0), "D");
    assert!(imp.replace_stub(5, stub(CD)).is_err());
}

#[test]
fn replace_stub_by_id_preserves_response_cursor() {
    let mut imp = imposter_of(AB);
    assert_eq!(served_body(&mut imp, 0), "A");
    assert!(imp.replace_stub_by_id("s1", stub(CD)), "id exists");
    assert_eq!(served_body(&mut imp, 0), "D");
    assert!(!imp.replace_stub_by_id("s2", stub(CD)));
}

#[test]
fn proxy_always_append_preserves_cursor_and_slot() {
    let mut imp = imposter_of(
        r#"[{"responses": [{"proxy": {"to": "http://upstream", "mode": "proxyAlways"}}]}]"#,
    );
    imp.insert_or_append_proxy_stub(
        stub(
            r#"{"predicates": [{"equals": {"path": "/rec"}}],
                "responses": [{"is": {"statusCode": 200, "body": "R1"}},
                              {"is": {"statusCode": 200, "body": "R2"}}]}"#,
        ),
        "http://upstream",
        "proxyAlways",
    );
    let at = imp.stubs().iter().position(|s| !s.stub.predicates.is_empty()).expect("recorded");
    let slot_before = imp.stubs()[at].slot;
    assert_eq!(served_body(&mut imp, at), "R1");
    imp.insert_or_append_proxy_stub(
        stub(
            r#"{"predicates": [{"equals": {"path": "/rec"}}],
                "responses": [{"is": {"statusCode": 200, "body": "R3"}}]}"#,
        ),
        "http://upstream",
        "proxyAlways",
    );
    assert_eq!(imp.stubs()[at].slot, slot_before);
    assert_eq!(served_body(&mut imp, at), "R2");
}

#[test]
fn cursor_survives_unrelated_structural_mutation() {
    let mut imp = imposter_of(AB);
    assert_eq!(served_body(&mut imp, 0), "A");
    imp.insert_generated_stub(
        stub(
            r#"{"predicates": [{"equals": {"path": "/other"}}],
                "responses": [{"is": {"statusCode": 200, "body": "Z"}}]}"#,
        ),
        usize::MAX,
    );
    assert_eq!(served_body(&mut imp, 0), "B");
}

#[test]
fn proxy_always_merges_responses_for_equal_multi_key_predicates() {
    let mut imp = imposter_of(
        r#"[{"responses": [{"proxy": {"to": "http://upstream", "mode": "proxyAlways"}}]}]"#,
    );
    let multi_key_stub = |fields: &str, body: &str| {
        stub(&format!(
            r#"{{"predicates": [{{"equals": {fields}}}],
                "responses": [{{"is": {{"statusCode": 200, "body": "{body}"}}}}]}}"#
        ))
    };
    let fields = r#"{"method": "GET", "path": "/x", "query": {"a": "1"}}"#;
    let reordered = r#"{"query": {"a": "1"}, "path": "/x", "method": "GET"}"#;
    imp.insert_or_append_proxy_stub(
        multi_key_stub(fields, "first"),
        "http://upstream",
        "proxyAlways",
    );
    imp.insert_or_append_proxy_stub(
        multi_key_stub(reordered, "second"),
        "http://upstream",
        "proxyAlways",
    );
    assert_eq!(imp.stubs().len(), 2);
    assert_eq!(imp.stubs()[1].stub.responses.len(), 2);
}

#[test]
fn proxy_once_goes_before_its_proxy() {
    let mut imp = imposter_of(
        r#"[{"responses": [{"is": {"statusCode": 404}}]},
            {"responses": [{"proxy": {"to": "http://upstream", "mode": "proxyOnce"}}]}]"#,
    );
    imp.insert_or_append_proxy_stub(
        stub(r#"{"id": "rec", "responses": [{"is": {"statusCode": 200, "body": "R"}}]}"#),
        "http://upstream",
        "proxyOnce",
    );
    assert_eq!(imp.stubs().len(), 3);
    assert_eq!(imp.stubs()[1].stub.id.as_deref(), Some("rec"));
    let mut slots: Vec<u64> = imp.stubs().iter().map(|s| s.slot).collect();
    slots.sort_unstable();
    slots.dedup();
    assert_eq!(slots.len(), 3, "no two stubs share a slot");
}

#[test]
fn responses_cycle_and_repeat() {
    let mut s = StubState::new(
        stub(
            r#"{"responses": [{"is": {"body": "A"}, "_behaviors": {"repeat": 2}}, {"is": {"body": "B"}}]}"#,
        ),
        1,
    );
    let mut served = Vec::new();
    for _ in 0..6 {
        let peeked = body_of(s.peek_response().expect("has responses"));
        let next = body_of(s.get_next_response().expect("has responses"));
        assert_eq!(peeked, next);
        served.push(next);
    }
    assert_eq!(served, vec!["A", "A", "B", "A", "A", "B"]);
    let mut empty = StubState::new(stub("{}"), 2);
    assert!(empty.peek_response().is_none());
    assert!(empty.get_next_response().is_none());
}

/// A store whose calls may block.
struct BlockingProbeStore {
    inner: LocalFlowStore,
}

impl FlowStore for BlockingProbeStore {
    fn is_blocking(&self) -> bool {
        true
    }
    fn get(&self, flow_id: &str, key: &str) -> Result<Option<Json>, String> {
        self.inner.get(flow_id, key)
    }
    fn set(&mut self, flow_id: &str, key: &str, value: Json) -> Result<(), String> {
        self.inner.set(flow_id, key, value)
    }
    fn delete(&mut self, flow_id: &str, key: &str) -> Result<(), String> {
        self.inner.delete(flow_id, key)
    }
    fn compare_and_set(
        &mut self,
        flow_id: &str,
        key: &str,
        expected: Option<&Json>,
        new: Json,
    ) -> Result<CasOutcome, String> {
        self.inner.compare_and_set(flow_id, key, expected, new)
    }
    fn clear_flow(&mut self, flow_id: &str) -> Result<(), String> {
        self.inner.clear_flow(flow_id)
    }
    fn increment(&mut self, flow_id: &str, key: &str) -> Result<u64, String> {
        self.inner.increment(flow_id, key)
    }
}

fn with_blocking_store(stubs: &str) -> Imposter<BlockingProbeStore, LocalJournal> {
    let list = items(&json(stubs)).iter().map(read_stub).collect();
    Imposter::with_parts(
        config(0, list),
        BlockingProbeStore { inner: LocalFlowStore::InMemory(MemoryFlowStore::new(300)) },
        LocalJournal::new(),
    )
}

#[test]
fn scenario_gated_stub_matches_through_blocking_offload() {
    let imp = with_blocking_store(&format!(
        r#"[{{"predicates": [{{"equals": {{"path": "/x"}}}}],
             "scenarioName": "sc",
             "requiredScenarioState": "{INITIAL_SCENARIO_STATE}",
             "responses": [{{"is": {{"statusCode": 200}}}}]}}]"#
    ));
    assert!(imp.snapshot().has_scenario_gate());
    assert!(imp.flow_store.is_blocking());
    assert_eq!(imp.matching_offload(), (true, false));
    assert_eq!(indexed(&imp, "GET", "/x", None, None), Some(0));
}

#[test]
fn scriptless_matching_bounded_stays_inline() {
    let imp = imposter_of(
        r#"[{"predicates": [{"equals": {"path": "/plain"}}],
             "responses": [{"is": {"statusCode": 200}}]}]"#,
    );
    assert!(!imp.snapshot().has_inject());
    assert_eq!(imp.matching_offload(), (false, false));
    assert!(indexed(&imp, "GET", "/plain", None, None).is_some());
}

#[test]
fn inject_predicate_matching_bounded_matches() {
    let script = "function (config) { return config.request.path === '/hit'; }";
    let imp = imposter_of(&format!(
        r#"[{{"predicates": [{{"inject": "{script}"}}], "responses": [{{"is": {{"statusCode": 200}}}}]}}]"#
    ));
    assert_eq!(imp.matching_offload(), (true, true));
    let find = |path: &str, said: bool| {
        let findings = vec![Finding {
            lookup: Lookup::Inject(script.to_string()),
            answer: Answer::Injected(Ok(said)),
        }];
        let mut cache = RegexCache::new();
        imp.find_matching_stub("GET", path, &Vec::new(), None, None, &findings, &mut cache)
            .expect("matcher must not error")
            .map(|(_, i)| i)
    };
    assert_eq!(find("/hit", true), Some(0));
    assert_eq!(find("/miss", false), None);
    let mut cache = RegexCache::new();
    assert!(matches!(
        imp.find_matching_stub("GET", "/hit", &Vec::new(), None, None, &Vec::new(), &mut cache),
        Err(MatchError::Unresolved(Lookup::Inject(s))) if s == script
    ));
}

#[test]
fn xpath_dom_once_matches_per_call_semantics() {
    let imp = imposter_of(
        r#"[{"predicates": [{"equals": {"body": "found"},
                             "xpath": {"selector": "//x:v", "ns": {"x": "urn:e"}}}],
             "responses": [{"is": {"statusCode": 200}}]},
            {"predicates": [{"equals": {"body": "other"}, "xpath": {"selector": "//v"}}],
             "responses": [{"is": {"statusCode": 200}}]}]"#,
    );
    let urn = || vec![("x".to_string(), "urn:e".to_string())];
    let find = |body: &str, namespaced: Option<&str>, plain: Option<&str>| {
        let findings = vec![
            Finding {
                lookup: Lookup::XPath("//x:v".to_string(), urn()),
                answer: Answer::Extracted(namespaced.map(str::to_string)),
            },
            Finding {
                lookup: Lookup::XPath("//v".to_string(), Vec::new()),
                answer: Answer::Extracted(plain.map(str::to_string)),
            },
        ];
        let mut cache = RegexCache::new();
        imp.find_matching_stub("POST", "/x", &Vec::new(), None, Some(body), &findings, &mut cache)
            .expect("no error")
            .map(|(_, i)| i)
    };
    assert_eq!(
        find(r#"<r xmlns:x="urn:e"><x:v>found</x:v></r>"#, Some("found"), None),
        Some(0),
        "namespaced XPath resolves against its ns map"
    );
    assert_eq!(
        find("<r><v>other</v></r>", None, Some("other")),
        Some(1),
        "plain XPath still resolves"
    );
}

#[test]
fn jsonpath_reuses_parsed_body() {
    let imp = imposter_of(
        r#"[{"predicates": [{"equals": {"body": "hello"}, "jsonpath": {"selector": "$.msg"}}],
             "responses": [{"is": {"statusCode": 200}}]}]"#,
    );
    let findings = vec![Finding {
        lookup: Lookup::JsonPath("$.msg".to_string()),
        answer: Answer::Extracted(Some("hello".to_string())),
    }];
    let mut cache = RegexCache::new();
    assert_eq!(
        imp.find_matching_stub(
            "POST",
            "/x",
            &Vec::new(),
            None,
            Some(r#"{"msg":"hello"}"#),
            &findings,
            &mut cache
        )
        .expect("no error")
        .map(|(_, i)| i),
        Some(0)
    );
}

/// A store that fails.
struct BrokenStore;

impl FlowStore for BrokenStore {
    fn is_blocking(&self) -> bool {
        false
    }
    fn get(&self, _: &str, _: &str) -> Result<Option<Json>, String> {
        Err("scenario-state backend read failed".to_string())
    }
    fn set(&mut self, _: &str, _: &str, _: Json) -> Result<(), String> {
        Err("down".to_string())
    }
    fn delete(&mut self, _: &str, _: &str) -> Result<(), String> {
        Err("down".to_string())
    }
    fn compare_and_set(
        &mut self,
        _: &str,
        _: &str,
        _: Option<&Json>,
        _: Json,
    ) -> Result<CasOutcome, String> {
        Err("down".to_string())
    }
    fn clear_flow(&mut self, _: &str) -> Result<(), String> {
        Err("down".to_string())
    }
    fn increment(&mut self, _: &str, _: &str) -> Result<u64, String> {
        Err("down".to_string())
    }
}

#[test]
fn a_failed_store_is_an_error_not_a_mismatch() {
    let list = vec![stub(
        r#"{"scenarioName": "sc", "requiredScenarioState": "Started",
            "responses": [{"is": {"statusCode": 200}}]}"#,
    )];
    let mut imp = Imposter::with_parts(config(0, list), BrokenStore, LocalJournal::new());
    let mut cache = RegexCache::new();
    let r = imp.find_matching_stub("GET", "/", &Vec::new(), None, None, &Vec::new(), &mut cache);
    assert!(matches!(r, Err(MatchError::Store(m)) if m.contains("read failed")));
    assert!(imp.set_scenario_state("f", "sc", "x").is_err());
    assert!(imp.teardown_space("f").is_err());
    assert_eq!(imp.stubs().len(), 1);
}

#[test]
fn scenarios_move_on_and_stale_moves_are_dropped() {
    let mut imp = imposter_of(
        r#"[{"scenarioName": "order", "requiredScenarioState": "Started", "newScenarioState": "paid",
             "responses": [{"is": {"statusCode": 200}}]},
            {"scenarioName": "order", "requiredScenarioState": "paid",
             "responses": [{"is": {"statusCode": 200}}]}]"#,
    );
    let flow = imp.resolve_flow_id(&Vec::new());
    assert_eq!(imp.scenario_state(&flow, "order").expect("read"), INITIAL_SCENARIO_STATE);
    assert_eq!(indexed(&imp, "GET", "/", None, None), Some(0));
    imp.apply_scenario_transition(&flow, 0).expect("move");
    assert_eq!(imp.scenario_state(&flow, "order").expect("read"), "paid");
    assert_eq!(indexed(&imp, "GET", "/", None, None), Some(1));
    imp.set_scenario_state(&flow, "order", "shipped").expect("set");
    imp.apply_scenario_transition(&flow, 0).expect("a stale move is no error");
    assert_eq!(imp.scenario_state(&flow, "order").expect("read"), "shipped");
    imp.delete_scenario_state(&flow, "order").expect("delete");
    assert_eq!(imp.scenario_state(&flow, "order").expect("read"), INITIAL_SCENARIO_STATE);
    assert_eq!(imp.scenario_names(), vec!["order".to_string()]);
}

#[test]
fn spaces_are_taken_down_alone() {
    let mut imp = imposter_of(
        r#"[{"space": "a", "scenarioName": "s", "responses": []},
            {"space": "b", "responses": []},
            {"responses": []}]"#,
    );
    assert_eq!(imp.space_stubs("a"), vec![0]);
    imp.set_scenario_state("a", "s", "x").expect("set");
    imp.set_scenario_state("b", "s", "y").expect("set");
    imp.teardown_space("a").expect("teardown");
    assert_eq!(imp.stubs().len(), 2);
    assert_eq!(imp.scenario_state("a", "s").expect("read"), INITIAL_SCENARIO_STATE);
    assert_eq!(imp.scenario_state("b", "s").expect("read"), "y");
}

#[test]
fn flow_values_are_kept_by_flow() {
    let mut imp = imposter_of(r#"[{"scenarioName": "s", "responses": []}]"#);
    imp.flow_set("f", "k", json("[1]")).expect("set");
    assert_eq!(imp.flow_get("f", "k").expect("get").map(|v| v.to_text()), Some("[1]".to_string()));
    assert!(imp.flow_get("g", "k").expect("get").is_none());
    imp.flow_delete("f", "k").expect("delete");
    assert!(imp.flow_get("f", "k").expect("get").is_none());
    imp.flow_set("f", "k", json("1")).expect("set");
    imp.flow_clear("f").expect("clear");
    assert!(imp.flow_get("f", "k").expect("get").is_none());
}

#[test]
fn a_value_is_exchanged_where_it_is_as_expected() {
    let mut store = LocalFlowStore::InMemory(MemoryFlowStore::new(300));
    assert!(matches!(
        store.compare_and_set("f", "k", None, json("1")),
        Ok(CasOutcome::Applied)
    ));
    match store.compare_and_set("f", "k", None, json("2")) {
        Ok(CasOutcome::Conflict(Some(current))) => assert_eq!(current.to_text(), "1"),
        other => panic!("expected a conflict, got {other:?}"),
    }
    assert!(matches!(
        store.compare_and_set("f", "k", Some(&json("1")), json("3")),
        Ok(CasOutcome::Applied)
    ));
}

#[test]
fn connection_faults_keep_requests_apart() {
    assert!(!imposter_of(r#"[{"responses": [{"is": {"statusCode": 200}}]}]"#).uses_tcp_faults());
    assert!(imposter_of(r#"[{"responses": [{"fault": "CONNECTION_RESET_BY_PEER"}]}]"#)
        .uses_tcp_faults());
    let mut faulty = stub(r#"{"responses": []}"#);
    faulty.responses.push(StubResponse::Is {
        is: IsResponse {
            status_code: 200,
            headers: Vec::new(),
            body: None,
            mode: ResponseMode::Text,
        },
        behaviors: None,
        rift: Some(RiftResponseExtension {
            fault: Some(RiftFaultConfig {
                latency: None,
                error: None,
                tcp: Some(RiftTcpFault {
                    probability_bits: 0,
                    kind: "CONNECTION_RESET_BY_PEER".to_string(),
                }),
            }),
            script: None,
            templated: false,
        }),
    });
    assert!(Imposter::new(config(0, vec![faulty])).expect("imposter").uses_tcp_faults());
}

fn generate(
    generators: &str,
    request: &GeneratorRequest<'_>,
    answers: Vec<Result<Vec<Json>, String>>,
) -> Generation {
    let list: Vec<Json> = items(&json(generators)).iter().map(|g| g.copy()).collect();
    let mut cache = RegexCache::new();
    generate_predicates_from_request(&list, request, &answers, &mut cache)
}

fn generated(generators: &str, request: &GeneratorRequest<'_>) -> Vec<Json> {
    match generate(generators, request, Vec::new()) {
        Generation::Done(list) => list,
        other => panic!("generation did not finish: {other:?}"),
    }
}

fn field<'a>(p: &'a Json, operation: &str, name: &str) -> &'a Json {
    object(object(p).get(operation).expect("an operation")).get(name).expect("a field")
}

fn plain_request<'a>(
    method: &'a str,
    path: &'a str,
    headers: &'a Vec<(String, String)>,
    body: Option<&'a str>,
    query: Option<&'a str>,
) -> GeneratorRequest<'a> {
    GeneratorRequest { method, path, headers, body, query }
}

#[test]
fn test_generator_always_writes_case_sensitive() {
    let headers = Vec::new();
    let predicates = generated(
        r#"[{"matches": {"method": true, "path": true}}]"#,
        &plain_request("GET", "/API/Users", &headers, None, None),
    );
    assert_eq!(predicates.len(), 1);
    assert_eq!(flag_at(object(&predicates[0]), "caseSensitive"), Some(true));
    assert_eq!(read_predicate(&predicates[0]).parameters.case_sensitive, Some(true));
}

#[test]
fn test_generator_except_applied_to_method() {
    let headers = Vec::new();
    let predicates = generated(
        r#"[{"matches": {"method": true}, "except": "^POST$"}]"#,
        &plain_request("POST", "/test", &headers, None, None),
    );
    assert_eq!(predicates.len(), 1);
    assert_eq!(field(&predicates[0], "equals", "method").as_text().unwrap(), "");
}

#[test]
fn test_generator_except_applied_to_path() {
    let headers = Vec::new();
    let predicates = generated(
        r#"[{"matches": {"path": true}, "except": "\\d+$"}]"#,
        &plain_request("GET", "/orders/123", &headers, None, None),
    );
    assert_eq!(predicates.len(), 1);
    assert_eq!(field(&predicates[0], "equals", "path").as_text().unwrap(), "/orders/");
}

#[test]
fn test_generator_except_applied_to_body() {
    let headers = Vec::new();
    let predicates = generated(
        r#"[{"matches": {"body": true}, "except": "\\d+"}]"#,
        &plain_request("POST", "/test", &headers, Some("token=abc123"), None),
    );
    assert_eq!(predicates.len(), 1);
    assert_eq!(field(&predicates[0], "equals", "body").as_text().unwrap(), "token=abc");
}

#[test]
fn test_generator_includes_query_parameters() {
    let headers = Vec::new();
    let predicates = generated(
        r#"[{"matches": {"path": true, "query": true}}]"#,
        &plain_request("GET", "/search", &headers, None, Some("q=hello&page=1")),
    );
    assert_eq!(predicates.len(), 1);
    assert_eq!(field(&predicates[0], "equals", "path").as_text().unwrap(), "/search");
    let query = object(field(&predicates[0], "equals", "query"));
    assert_eq!(text_at(query, "q").unwrap(), "hello");
    assert_eq!(text_at(query, "page").unwrap(), "1");
}

#[test]
fn test_generator_inject_produces_predicates() {
    let headers = Vec::new();
    let request = plain_request("GET", "/api/users", &headers, None, None);
    match generate(r#"[{"inject": "f"}]"#, &request, Vec::new()) {
        Generation::Ask { script, so_far } => {
            assert_eq!(script, "f");
            assert!(so_far.is_empty());
        }
        other => panic!("the script must be asked: {other:?}"),
    }
    let said = vec![json(r#"{"equals": {"path": "/api/users"}}"#)];
    match generate(r#"[{"inject": "f"}]"#, &request, vec![Ok(said)]) {
        Generation::Done(list) => {
            assert_eq!(list.len(), 1);
            assert_eq!(field(&list[0], "equals", "path").as_text().unwrap(), "/api/users");
        }
        other => panic!("generation must finish: {other:?}"),
    }
}

#[test]
fn test_generator_inject_receives_existing_predicates() {
    let headers = Vec::new();
    let request = plain_request("POST", "/orders", &headers, None, None);
    let generators = r#"[{"matches": {"method": true}}, {"inject": "f"}]"#;
    let mut result = match generate(generators, &request, Vec::new()) {
        Generation::Ask { so_far, .. } => so_far,
        other => panic!("the script must be asked: {other:?}"),
    };
    assert_eq!(result.len(), 1);
    result.push(json(r#"{"equals": {"path": "/orders"}}"#));
    match generate(generators, &request, vec![Ok(result)]) {
        Generation::Done(list) => assert_eq!(list.len(), 3),
        other => panic!("generation must finish: {other:?}"),
    }
}

#[test]
fn generator_inject_failure_is_distinguishable_from_empty() {
    let headers = Vec::new();
    let request = plain_request("GET", "/api/users", &headers, None, None);
    match generate(r#"[{"inject": "f"}]"#, &request, vec![Err("script-error".to_string())]) {
        Generation::Failed(kind) => assert_eq!(kind, "script-error"),
        other => panic!("a throwing generator must fail: {other:?}"),
    }
    match generate(r#"[{"inject": "f"}]"#, &request, vec![Ok(Vec::new())]) {
        Generation::Done(list) => assert!(list.is_empty()),
        other => panic!("an empty result is no failure: {other:?}"),
    }
}

#[test]
fn test_generator_inject_bad_function_returns_err() {
    let headers = Vec::new();
    let request = plain_request("GET", "/test", &headers, None, None);
    let answers = vec![Err("script-error".to_string())];
    assert!(matches!(
        generate(r#"[{"inject": "not a function"}]"#, &request, answers),
        Generation::Failed(kind) if kind == "script-error"
    ));
}

#[test]
fn upstream_requests() {
    assert_eq!(proxy::upstream_method("get"), "GET");
    assert_eq!(proxy::replace_once("/api/api", "/api", ""), "/api");
    let rewrite = Some(PathRewrite { from: "/v1".to_string(), to: "/v2".to_string() });
    assert_eq!(
        proxy::target_url("http://up", "/v1/x", &rewrite, Some("a=1")),
        "http://up/v2/x?a=1"
    );
    let sent = vec![
        ("Host".to_string(), "here".to_string()),
        ("Accept".to_string(), "*/*".to_string()),
        ("Content-Length".to_string(), "3".to_string()),
    ];
    let inject = vec![("X-Added".to_string(), "1".to_string())];
    assert_eq!(
        proxy::upstream_headers(&sent, &inject),
        vec![
            ("Accept".to_string(), "*/*".to_string()),
            ("X-Added".to_string(), "1".to_string())
        ]
    );
    assert!(proxy::oversized("http://up", proxy::MAX_PROXY_RESPONSE_BODY_SIZE as u64).is_none());
    assert!(proxy::oversized("http://up", proxy::MAX_PROXY_RESPONSE_BODY_SIZE as u64 + 1).is_some());
}

#[test]
fn bodies_with_keys_of_the_same_letters_stay_candidates() {
    let imp = imposter(&[
        r#"[{"deepEquals": {"body": {"k": 1, "K": 1}}}]"#,
        r#"[{"deepEquals": {"body": {"k": 1, "other": 2}}}]"#,
    ]);
    for body in [
        r#"{"K": 1, "k": 2}"#,
        r#"{"k": 1, "K": 1}"#,
        r#"{"k": 1, "other": 2}"#,
        r#"{"OTHER": "2", "K": "1"}"#,
        r#"{"k": 2, "K": 1}"#,
        "[]",
        "no JSON",
    ] {
        assert_eq!(
            indexed(&imp, "POST", "/", None, Some(body)),
            linear(&imp, "POST", "/", None, Some(body)),
            "{body}"
        );
    }
    assert_eq!(indexed(&imp, "POST", "/", None, Some(r#"{"K": 1, "k": 2}"#)), Some(0));
}

#[test]
fn a_store_in_memory_keeps_its_lifetime() {
    let ttl = |imp: LocalImposter| match imp.flow_store {
        LocalFlowStore::InMemory(m) => m.ttl_seconds(),
        LocalFlowStore::NoOp => panic!("kept in memory"),
    };
    let mut c = with_backend("inmemory", None);
    if let Some(f) = c.rift.as_mut().and_then(|r| r.flow_state.as_mut()) {
        f.ttl_seconds = 42;
    }
    assert_eq!(ttl(Imposter::new(c).expect("in memory")), 42);
    assert_eq!(ttl(imposter_of(r#"[{"scenarioName": "s", "responses": []}]"#)), 300);
}

#[test]
fn a_redis_store_is_not_built_here() {
    let redis = RedisConfig {
        url: "redis://localhost:6379".to_string(),
        pool_size: 10,
        key_prefix: "rift:".to_string(),
    };
    match Imposter::new(with_backend("redis", Some(redis))) {
        Err(e) => assert_eq!(
            e,
            "flowState.backend is \"redis\" but this binary was built without the redis-backend feature (rebuild with --features redis-backend)"
        ),
        Ok(_) => panic!("there is no such backend"),
    }
}

#[test]
fn matched_stub_is_shared_arc_not_deep_cloned() {
    let imp = imposter_of(
        r#"[{"predicates": [{"equals": {"path": "/shared"}}],
            "responses": [{"is": {"statusCode": 200, "body": "x"}}]}]"#,
    );
    let mut cache = RegexCache::new();
    let (matched, index) = imp
        .find_matching_stub_with_client(
            "GET",
            "/shared",
            &Vec::new(),
            None,
            None,
            None,
            None,
            &Vec::new(),
            &mut cache,
        )
        .expect("store is infallible")
        .expect("request must match");
    let stored = &imp.stubs()[index];
    assert!(
        std::ptr::eq(matched, stored),
        "matched stub must be the stored one, not a deep clone"
    );
}

#[test]
fn the_configuration_keeps_its_stubs() {
    let text = r#"[{"id": "one", "scenarioName": "s", "space": "a",
        "predicates": [{"equals": {"path": "/x"}}, {"not": {"or": [{"exists": {"query": true}},
            {"inject": "f"}]}}],
        "responses": [{"is": {"statusCode": 201, "body": {"k": [1, null]}}}, {"fault": "F"}]},
        {"responses": []}]"#;
    let mut imp = imposter_of(text);
    let debug = |s: &Stub| format!("{s:?}");
    assert_eq!(imp.config.stubs.len(), 2);
    for i in 0..2 {
        assert_eq!(debug(&imp.config.stubs[i]), debug(&imp.stubs()[i].stub));
    }
    imp.replace_stubs(Vec::new());
    assert_eq!(imp.config.stubs.len(), 2, "as they were given");
}

#[test]
fn copies_hold_the_same_values() {
    for text in [
        r#"{"predicates": [{"and": [{"deepEquals": {"body": {"a": 0.5}}, "except": "x",
            "caseSensitive": true}, {"matches": {"path": "^/"}, "keyCaseSensitive": false}]},
            {"contains": {"path": "c"}}, {"startsWith": {"path": "s"}}, {"endsWith": {"path": "e"}},
            {"equals": {"body": "1"}, "jsonpath": {"selector": "$.id"}}],
            "responses": [{"is": {"statusCode": 200}}]}"#,
        r#"{"id": "i", "scenarioName": "s", "requiredScenarioState": "q", "newScenarioState": "n",
            "space": "p", "responses": [{"fault": "CONNECTION_RESET_BY_PEER"}]}"#,
    ] {
        let s = stub(text);
        let c = copy_stub(&s);
        assert_eq!(format!("{c:?}"), format!("{s:?}"));
        for r in &s.responses {
            assert_eq!(format!("{:?}", copy_response(r)), format!("{r:?}"));
        }
    }
}

#[test]
fn notices_name_exactly_the_patterns_rejected_alone() {
    let snap = snapshot(&[
        r#"[{"matches": {"path": "^/a$"}, "caseSensitive": true}]"#.to_string(),
        r#"[{"matches": {"path": "("}, "caseSensitive": true}]"#.to_string(),
        r#"[{"matches": {"path": "^/b$"}}]"#.to_string(),
        r#"[{"matches": {"path": "["}}]"#.to_string(),
        r#"[{"matches": {"path": "*"}}]"#.to_string(),
    ]);
    let told: Vec<(usize, &str)> =
        snap.index().rejected().iter().map(|(i, p)| (*i, p.as_str())).collect();
    assert_eq!(told, vec![(3, "["), (4, "*"), (1, "(")]);
    assert_eq!(candidate_ids(&snap, "GET", "/a"), vec![0, 1, 3, 4]);
    assert_eq!(candidate_ids(&snap, "GET", "/B"), vec![1, 2, 3, 4]);
    let fine = snapshot(&[r#"[{"matches": {"path": "^/a$"}}]"#.to_string()]);
    assert!(fine.index().rejected().is_empty());
}

#[test]
fn a_teardown_keeps_the_rest() {
    let mut imp = imposter_of(
        r#"[{"space": "a", "scenarioName": "s", "responses": []},
            {"scenarioName": "t", "responses": []}]"#,
    );
    imp.set_scenario_state("a", "s", "x").expect("set");
    imp.set_scenario_state("a", "t", "y").expect("set");
    imp.flow_set("a", "other", json("1")).expect("set");
    imp.increment_request_count();
    imp.teardown_space("a").expect("both parts work");
    for scenario in ["s", "t"] {
        assert_eq!(imp.scenario_state("a", scenario).expect("read"), INITIAL_SCENARIO_STATE);
    }
    assert!(imp.flow_get("a", "other").expect("get").is_some());
    assert_eq!(imp.get_request_count(), 1);
}

#[test]
fn the_first_failure_is_the_one_told() {
    let fails = |m: &str| Err(m.to_string());
    assert_eq!(first_failure(None, Ok(())), None);
    assert_eq!(first_failure(None, fails("a")), Some("a".to_string()));
    assert_eq!(first_failure(Some("a".to_string()), fails("b")), Some("a".to_string()));
    assert_eq!(first_failure(Some("a".to_string()), Ok(())), Some("a".to_string()));
}
