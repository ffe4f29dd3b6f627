//! Request headers, connection faults, events and data files.

use rift_mock_core::datadir::{data_name, is_interrupted_write, temp_name};
use rift_mock_core::events::{AdminEventBus, AdminEventKind, ImposterAction};
use rift_mock_core::fault::TcpFaultKind;
use rift_mock_core::headers::{collect_request_headers, CollectedHeaders};
use rift_mock_core::imposter::Imposter;
use rift_mock_core::record::RecordedRequest;
use rift_mock_core::responses::{tcp_fault_carrier, ServedResponse};
use rift_mock_core::types::{ImposterConfig, ResponseMode, RiftConfig, RiftFlowStateConfig};

fn lines(list: &[(&str, &[u8])]) -> Vec<(String, Vec<u8>)> {
    list.iter().map(|(n, v)| (n.to_string(), v.to_vec())).collect()
}

fn title_case(name: &str) -> String {
    name.split('-')
        .map(|part| {
            let mut chars = part.chars();
            match chars.next() {
                Some(c) => c.to_ascii_uppercase().to_string() + chars.as_str(),
                None => String::new(),
            }
        })
        .collect::<Vec<String>>()
        .join("-")
}

fn identity(name: &str) -> String {
    name.to_string()
}

fn values<'a>(c: &'a CollectedHeaders, name: &str) -> Option<&'a Vec<String>> {
    c.headers.iter().find(|h| h.0 == name).map(|h| &h.1)
}

#[test]
fn collector_keeps_every_value_in_send_order() {
    let sent = lines(&[
        ("x-test", b"first"),
        ("content-type", b"application/json"),
        ("x-test", b"second"),
    ]);
    let collected = collect_request_headers(&sent, title_case);
    assert_eq!(
        values(&collected, "X-Test"),
        Some(&vec!["first".to_string(), "second".to_string()])
    );
    assert_eq!(values(&collected, "Content-Type"), Some(&vec!["application/json".to_string()]));
}

#[test]
fn collector_drops_non_utf8_values_and_omits_a_name_left_with_none() {
    let sent = lines(&[
        ("x-bin", &[0xFF, 0xFE]),
        ("x-mixed", b"readable"),
        ("x-mixed", &[0xFF, 0xFE]),
    ]);
    let collected = collect_request_headers(&sent, title_case);
    assert!(values(&collected, "X-Bin").is_none());
    assert_eq!(values(&collected, "X-Mixed"), Some(&vec!["readable".to_string()]));
    assert_eq!(collected.dropped, vec!["X-Bin".to_string(), "X-Mixed".to_string()]);
}

#[test]
fn collector_applies_the_callers_name_function() {
    let sent = lines(&[("x-my-header", b"v")]);
    assert!(values(&collect_request_headers(&sent, title_case), "X-My-Header").is_some());
    assert!(values(&collect_request_headers(&sent, identity), "x-my-header").is_some());
}

#[test]
fn flow_id_takes_the_first_value_of_a_repeated_header() {
    let config = ImposterConfig {
        port: Some(0),
        protocol: "http".to_string(),
        name: None,
        stubs: Vec::new(),
        record_requests: false,
        allow_cors: false,
        strict_behaviors: false,
        default_forward: None,
        default_response: None,
        rift: Some(RiftConfig {
            flow_state: Some(RiftFlowStateConfig {
                backend: "inmemory".to_string(),
                ttl_seconds: 300,
                flow_id_source: Some("header:X-Flow".to_string()),
                redis: None,
            }),
        }),
    };
    let imposter = Imposter::new(config).expect("imposter");
    let sent = lines(&[("x-flow", b"tenant-a"), ("x-flow", b"tenant-b")]);
    let collected = collect_request_headers(&sent, title_case);
    assert_eq!(imposter.resolve_flow_id(&collected.headers), "tenant-a");
    assert_eq!(imposter.resolve_flow_id_recorded(&collected.headers), "tenant-a");
}

#[test]
fn collector_returns_an_empty_map_for_a_request_with_no_headers() {
    let collected = collect_request_headers(&Vec::new(), title_case);
    assert!(collected.headers.is_empty());
    assert!(collected.dropped.is_empty(), "a request that dropped nothing must not say so");
}

#[test]
fn collect_request_headers_keeps_every_repeated_value_and_drops_non_utf8() {
    let sent = lines(&[
        ("x-repeat", b"first"),
        ("x-repeat", b"second"),
        ("content-type", b"application/json"),
        ("x-binary", &[0xFF, 0xFE]),
    ]);
    let collected = collect_request_headers(&sent, identity);
    assert_eq!(
        values(&collected, "x-repeat"),
        Some(&vec!["first".to_string(), "second".to_string()])
    );
    assert_eq!(values(&collected, "content-type"), Some(&vec!["application/json".to_string()]));
    assert!(values(&collected, "x-binary").is_none());
}

#[test]
fn header_values_may_hold_more_than_ascii() {
    let collected = collect_request_headers(&lines(&[("x", "é".as_bytes())]), identity);
    assert_eq!(values(&collected, "x"), Some(&vec!["é".to_string()]));
}

#[test]
fn parses_wiremock_names_and_aliases() {
    assert_eq!(TcpFaultKind::parse("CONNECTION_RESET_BY_PEER"), Some(TcpFaultKind::Reset));
    assert_eq!(TcpFaultKind::parse("reset"), Some(TcpFaultKind::Reset));
    assert_eq!(TcpFaultKind::parse("EMPTY_RESPONSE"), Some(TcpFaultKind::Empty));
    assert_eq!(TcpFaultKind::parse("empty"), Some(TcpFaultKind::Empty));
    assert_eq!(TcpFaultKind::parse("RANDOM_DATA_THEN_CLOSE"), Some(TcpFaultKind::RandomData));
    assert_eq!(TcpFaultKind::parse("garbage"), Some(TcpFaultKind::RandomData));
    assert_eq!(TcpFaultKind::parse("random"), Some(TcpFaultKind::RandomData));
    assert_eq!(TcpFaultKind::parse("malformed"), Some(TcpFaultKind::MalformedChunk));
    assert_eq!(
        TcpFaultKind::parse("MALFORMED_RESPONSE_CHUNK"),
        Some(TcpFaultKind::MalformedChunk)
    );
    assert_eq!(TcpFaultKind::parse("nonsense"), None);
}

#[test]
fn canonical_name_returns_the_documented_wiremock_name() {
    assert_eq!(TcpFaultKind::Reset.canonical_name(), "CONNECTION_RESET_BY_PEER");
    assert_eq!(TcpFaultKind::Empty.canonical_name(), "EMPTY_RESPONSE");
    assert_eq!(TcpFaultKind::RandomData.canonical_name(), "RANDOM_DATA_THEN_CLOSE");
    assert_eq!(TcpFaultKind::MalformedChunk.canonical_name(), "MALFORMED_RESPONSE_CHUNK");
}

#[test]
fn canonical_names_are_distinct_across_kinds() {
    let names = [
        TcpFaultKind::Reset.canonical_name(),
        TcpFaultKind::Empty.canonical_name(),
        TcpFaultKind::RandomData.canonical_name(),
        TcpFaultKind::MalformedChunk.canonical_name(),
    ];
    let unique: std::collections::BTreeSet<&str> = names.iter().copied().collect();
    assert_eq!(unique.len(), 4, "each kind needs its own name: {names:?}");
}

fn response(fault: Option<TcpFaultKind>, headers: &[(&str, &str)], body: &[u8]) -> ServedResponse {
    ServedResponse {
        status: 200,
        headers: headers.iter().map(|(n, v)| (n.to_string(), v.to_string())).collect(),
        body: body.to_vec(),
        fault,
    }
}

#[test]
fn tcp_fault_carrier_reports_the_kind_in_the_extension() {
    for (kind, expected) in [
        (TcpFaultKind::Reset, "CONNECTION_RESET_BY_PEER"),
        (TcpFaultKind::Empty, "EMPTY_RESPONSE"),
        (TcpFaultKind::RandomData, "RANDOM_DATA_THEN_CLOSE"),
        (TcpFaultKind::MalformedChunk, "MALFORMED_RESPONSE_CHUNK"),
    ] {
        assert_eq!(tcp_fault_carrier(&response(Some(kind), &[], b"")), Some(expected));
    }
}

#[test]
fn tcp_fault_carrier_ignores_an_ordinary_response() {
    assert_eq!(tcp_fault_carrier(&response(None, &[], b"hello")), None);
}

#[test]
fn tcp_fault_carrier_ignores_the_error_fault_marker_header() {
    assert_eq!(tcp_fault_carrier(&response(None, &[("x-rift-fault", "error")], b"")), None);
}

#[test]
fn faults_write_what_they_are_named_for() {
    assert!(TcpFaultKind::Reset.raw_bytes().is_empty());
    assert!(TcpFaultKind::Reset.resets());
    assert!(TcpFaultKind::Empty.raw_bytes().is_empty());
    assert!(!TcpFaultKind::Empty.resets());
    assert!(!TcpFaultKind::RandomData.raw_bytes().is_empty());
    let chunk = TcpFaultKind::MalformedChunk.raw_bytes();
    assert!(String::from_utf8(chunk).expect("text").starts_with("HTTP/1.1 200 OK\r\n"));
}

fn rec() -> RecordedRequest {
    RecordedRequest {
        mode: ResponseMode::Text,
        request_from: "127.0.0.1".to_string(),
        method: "GET".to_string(),
        path: "/".to_string(),
        query: Vec::new(),
        headers: Vec::new(),
        body: None,
        timestamp: "2026-01-01T00:00:00Z".to_string(),
        match_outcome: None,
        status: None,
        latency_ms: None,
        node: None,
    }
}

#[test]
fn no_subscribers_means_no_publish() {
    let mut bus = AdminEventBus::new();
    assert!(!bus.has_subscribers());
    assert!(bus.publish_lifecycle(ImposterAction::Created, Some(1)).is_none());
    assert!(bus.publish_request(1, "f".to_string(), Some(1), rec()).is_none());
    assert_eq!(bus.seq(), 0, "no subscribers → no sequence consumed");
}

#[test]
fn subscriber_receives_and_seq_advances() {
    let mut bus = AdminEventBus::new();
    bus.subscribe();
    assert!(bus.has_subscribers());
    let ev = bus.publish_lifecycle(ImposterAction::Deleted, Some(7)).expect("event");
    assert_eq!(ev.seq, 1);
    assert!(matches!(
        ev.kind,
        AdminEventKind::Lifecycle { action: ImposterAction::Deleted, port: Some(7) }
    ));
    assert_eq!(bus.seq(), 1);
    let next = bus.publish_request(7, "f".to_string(), Some(3), rec()).expect("event");
    assert_eq!(next.seq, 2, "later events have higher numbers");
    bus.unsubscribe();
    assert!(bus.publish_lifecycle(ImposterAction::Deleted, Some(7)).is_none());
}

#[test]
fn actions_have_names() {
    assert_eq!(ImposterAction::Created.as_str(), "created");
    assert_eq!(ImposterAction::Deleted.as_str(), "deleted");
}

#[test]
fn the_sweep_removes_only_port_named_temp_files() {
    let swept: Vec<&str> = [
        "4545.json.tmp",
        "65535.json.tmp",
        "4545.json",
        "notes.json.tmp",
        "65536.json.tmp",
        "+80.json.tmp",
        "04545.json.tmp",
        "4545.tmp",
    ]
    .into_iter()
    .filter(|name| is_interrupted_write(name).is_some())
    .collect();
    assert_eq!(swept, vec!["4545.json.tmp", "65535.json.tmp"]);
}

#[test]
fn files_are_named_by_port() {
    assert_eq!(data_name(4545), "4545.json");
    assert_eq!(temp_name(0), "0.json.tmp");
    for port in [0u16, 80, 4545, 65535] {
        assert_eq!(is_interrupted_write(&temp_name(port)), Some(port));
        assert_eq!(is_interrupted_write(&data_name(port)), None);
    }
}
