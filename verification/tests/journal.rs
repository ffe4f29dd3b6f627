//! The journal of recorded requests.

use rift_mock_core::imposter::Imposter;
use rift_mock_core::journal::{
    JournalRead, JournalReadSince, LocalJournal, RequestJournal, MAX_RECORDED_REQUESTS,
};
use rift_mock_core::record::{MatchOutcome, RecordedRequest};
use rift_mock_core::types::{ImposterConfig, ResponseMode};

fn req(path: &str) -> RecordedRequest {
    RecordedRequest {
        mode: ResponseMode::Text,
        request_from: "t".to_string(),
        method: "GET".to_string(),
        path: path.to_string(),
        query: Vec::new(),
        headers: Vec::new(),
        body: None,
        timestamp: "t".to_string(),
        match_outcome: None,
        status: None,
        latency_ms: None,
        node: None,
    }
}

fn outcome() -> MatchOutcome {
    MatchOutcome {
        matched: false,
        stub_index: None,
        stub_id: None,
        tried: Vec::new(),
        tried_omitted: 0,
    }
}

fn cursor(j: &LocalJournal, port: u16, since: Option<u64>) -> JournalReadSince {
    j.read_since(port, since, |_: &RecordedRequest| true).expect("LocalJournal supports cursors")
}

fn indices(read: &JournalReadSince) -> Vec<u64> {
    read.entries.iter().map(|e| e.index).collect()
}

fn paths(read: &JournalReadSince) -> Vec<&str> {
    read.entries.iter().map(|e| e.request.path.as_str()).collect()
}

#[test]
fn attach_response_annotates_exactly_the_indexed_entry() {
    let mut j = LocalJournal::new();
    let first = j.record_indexed(1, "f", req("/a")).expect("indexed");
    let second = j.record_indexed(1, "f", req("/b")).expect("indexed");
    j.attach_response(1, second, 503, 42);
    let entries = j.read(1).entries;
    let a = entries.iter().find(|r| r.path == "/a").expect("/a retained");
    let b = entries.iter().find(|r| r.path == "/b").expect("/b retained");
    assert_eq!((b.status, b.latency_ms), (Some(503), Some(42)));
    assert_eq!((a.status, a.latency_ms), (None, None));
    assert_ne!(first, second);
}

#[test]
fn attach_response_to_a_missing_entry_is_a_no_op() {
    let mut j = LocalJournal::new();
    let index = j.record_indexed(1, "f", req("/a")).expect("indexed");
    j.clear(1).expect("clear");
    j.attach_response(1, index, 200, 1);
    j.attach_response(1, index + 9_999, 200, 1);
    assert!(j.read(1).entries.is_empty());
}

struct NoIndices(Vec<RecordedRequest>);

impl RequestJournal for NoIndices {
    fn note_request(&mut self, _port: u16) {}
    fn record(&mut self, _port: u16, _flow_id: &str, req: RecordedRequest) {
        self.0.push(req);
    }
    fn read(&self, _port: u16) -> JournalRead {
        JournalRead { entries: self.0.iter().map(|r| r.copy()).collect(), complete: true }
    }
    fn clear(&mut self, _port: u16) -> Result<(), String> {
        Ok(())
    }
    fn retain<K: Fn(&RecordedRequest) -> bool>(&mut self, _port: u16, _keep: K) {}
    fn clear_flow(&mut self, _port: u16, _flow_id: &str) -> Result<(), String> {
        Ok(())
    }
    fn count(&self, _port: u16) -> u64 {
        0
    }
    fn read_since<K: Fn(&RecordedRequest) -> bool>(
        &self,
        _port: u16,
        _since: Option<u64>,
        _keep: K,
    ) -> Option<JournalReadSince> {
        None
    }
    fn record_indexed(&mut self, port: u16, flow_id: &str, req: RecordedRequest) -> Option<u64> {
        self.record(port, flow_id, req);
        None
    }
}

#[test]
fn a_backend_without_indices_ignores_the_attach() {
    let mut j = NoIndices(Vec::new());
    assert_eq!(j.record_indexed(1, "f", req("/a")), None, "no stable indices");
    j.attach_response(1, 0, 500, 7);
    let entries = j.read(1).entries;
    assert_eq!(entries.len(), 1);
    assert_eq!((entries[0].status, entries[0].latency_ms), (None, None));
}

#[test]
fn local_caps_at_10k_evicting_oldest() {
    let mut j = LocalJournal::new();
    for i in 0..(MAX_RECORDED_REQUESTS + 10) {
        j.record(1, "f", req(&format!("/{i}")));
    }
    let read = j.read(1);
    assert_eq!(read.entries.len(), MAX_RECORDED_REQUESTS);
    assert_eq!(read.entries[0].path, "/10", "oldest entries evicted first");
    assert!(read.complete, "the local backend is always complete");
}

#[test]
fn local_read_filtered_keeps_only_matches() {
    let mut j = LocalJournal::new();
    j.record(1, "f", req("/keep/1"));
    j.record(1, "f", req("/drop/1"));
    j.record(1, "f", req("/keep/2"));

    let read = j.read_filtered(1, |r: &RecordedRequest| r.path.starts_with("/keep"));
    let found: Vec<&str> = read.entries.iter().map(|r| r.path.as_str()).collect();
    assert_eq!(found, vec!["/keep/1", "/keep/2"]);
    assert!(read.complete);

    let via_read: Vec<String> = j
        .read(1)
        .entries
        .into_iter()
        .filter(|r| r.path.starts_with("/keep"))
        .map(|r| r.path)
        .collect();
    assert_eq!(found, via_read);

    assert!(j.read_filtered(1, |_: &RecordedRequest| false).entries.is_empty());
    assert_eq!(j.read_filtered(1, |_: &RecordedRequest| true).entries.len(), 3);
}

#[test]
fn attach_match_on_an_absent_entry_is_a_no_op() {
    let mut j = LocalJournal::new();
    for i in 0..(MAX_RECORDED_REQUESTS + 5) {
        j.record_indexed(1, "f", req(&format!("/{i}")));
    }
    j.attach_match(1, 1, outcome());
    j.attach_match(9999, 1, outcome());
    let entries = j.read(1).entries;
    assert_eq!(entries.len(), MAX_RECORDED_REQUESTS);
    assert!(entries.iter().all(|r| r.match_outcome.is_none()));

    j.attach_match(1, 6, outcome());
    let entries = j.read(1).entries;
    assert!(entries[0].match_outcome.is_some(), "the addressed entry");
    assert!(entries[1..].iter().all(|r| r.match_outcome.is_none()), "and only that entry");
}

#[test]
fn local_counts_without_recording() {
    let mut j = LocalJournal::new();
    j.note_request(1);
    j.note_request(1);
    assert_eq!(j.count(1), 2);
    assert!(j.read(1).entries.is_empty());
}

#[test]
fn local_clear_resets_count() {
    let mut j = LocalJournal::new();
    j.note_request(1);
    j.record(1, "f", req("/a"));
    j.clear(1).expect("local clear is infallible");
    assert_eq!(j.count(1), 0);
    assert!(j.read(1).entries.is_empty());
}

#[test]
fn local_retain_preserves_count() {
    let mut j = LocalJournal::new();
    j.note_request(1);
    j.note_request(1);
    j.record(1, "f", req("/a"));
    j.record(1, "f", req("/b"));
    j.retain(1, |r: &RecordedRequest| r.path == "/b");
    assert_eq!(j.read(1).entries.len(), 1);
    assert_eq!(j.count(1), 2, "retain never resets the count");
}

#[test]
fn local_clear_flow_removes_one_slice() {
    let mut j = LocalJournal::new();
    j.note_request(1);
    j.record(1, "flow-a", req("/a"));
    j.record(1, "flow-b", req("/b"));
    j.clear_flow(1, "flow-a").expect("local clear_flow is infallible");
    let read = j.read(1);
    assert_eq!(read.entries.len(), 1);
    assert_eq!(read.entries[0].path, "/b");
    assert_eq!(j.count(1), 1, "scoped clear keeps the total count");
}

#[test]
fn local_clear_and_clear_flow_are_ok() {
    let mut j = LocalJournal::new();
    j.record(1, "flow-a", req("/a"));
    assert!(j.clear_flow(1, "flow-a").is_ok());
    assert!(j.clear(1).is_ok());
}

#[test]
fn cursor_assigns_1based_indices_and_reports_next() {
    let mut j = LocalJournal::new();
    assert_eq!(cursor(&j, 1, None).next, 0);

    assert_eq!(j.record_indexed(1, "f", req("/a")), Some(1), "1-based");
    assert_eq!(j.record_indexed(1, "f", req("/b")), Some(2));
    assert_eq!(j.record_indexed(1, "f", req("/c")), Some(3));

    let read = cursor(&j, 1, None);
    assert_eq!(indices(&read), vec![1, 2, 3]);
    assert_eq!(paths(&read), vec!["/a", "/b", "/c"]);
    assert_eq!(read.next, 3, "next is the last assigned index");
    assert!(!read.truncated, "a baseline read can never be truncated");
    assert!(read.complete);

    j.record(1, "f", req("/d"));
    assert_eq!(cursor(&j, 1, None).next, 4);
    assert_eq!(j.record_indexed(2, "f", req("/x")), Some(1));
}

#[test]
fn cursor_since_returns_strictly_newer() {
    let mut j = LocalJournal::new();
    for p in ["/a", "/b", "/c"] {
        j.record_indexed(1, "f", req(p));
    }
    assert_eq!(indices(&cursor(&j, 1, Some(1))), vec![2, 3], "index 1 was already seen");
    assert_eq!(indices(&cursor(&j, 1, Some(2))), vec![3]);
    let caught_up = cursor(&j, 1, Some(3));
    assert!(caught_up.entries.is_empty(), "nothing newer than the tip");
    assert_eq!(caught_up.next, 3, "next still reports the tip");
    let beyond = cursor(&j, 1, Some(99));
    assert!(beyond.entries.is_empty());
    assert_eq!(beyond.next, 3);
}

#[test]
fn cursor_keep_composes_after_cut() {
    let mut j = LocalJournal::new();
    j.record_indexed(1, "f", req("/keep/1"));
    j.record_indexed(1, "f", req("/drop/1"));
    j.record_indexed(1, "f", req("/keep/2"));
    j.record_indexed(1, "f", req("/drop/2"));
    let keep_only = |r: &RecordedRequest| r.path.starts_with("/keep");

    let all = j.read_since(1, None, keep_only).expect("cursor support");
    assert_eq!(indices(&all), vec![1, 3], "filtered, indices preserved");
    assert_eq!(all.next, 4, "next spans scanned entries, not returned ones");

    let after = j.read_since(1, Some(1), keep_only).expect("cursor support");
    assert_eq!(indices(&after), vec![3], "cut first, then filter");
    assert_eq!(after.next, 4);

    let empty = j
        .read_since(1, Some(3), |r: &RecordedRequest| r.path == "/nothing")
        .expect("cursor support");
    assert!(empty.entries.is_empty());
    assert_eq!(empty.next, 4, "an all-rejected window still advances");
}

#[test]
fn cursor_survives_clear_without_truncation() {
    let mut j = LocalJournal::new();
    j.record_indexed(1, "f", req("/a"));
    j.record_indexed(1, "f", req("/b"));
    j.clear(1).expect("local clear is infallible");

    let after_clear = cursor(&j, 1, Some(2));
    assert!(after_clear.entries.is_empty());
    assert_eq!(after_clear.next, 2, "next never regresses over a clear");
    assert!(!after_clear.truncated);

    j.record_indexed(1, "f", req("/c"));
    let resumed = cursor(&j, 1, Some(2));
    assert_eq!(indices(&resumed), vec![3], "post-clear entries keep counting up");
    assert_eq!(paths(&resumed), vec!["/c"]);
    assert!(!resumed.truncated);

    j.record_indexed(1, "flow-x", req("/x"));
    j.clear_flow(1, "flow-x").expect("infallible");
    assert!(!cursor(&j, 1, Some(1)).truncated);
    j.retain(1, |_: &RecordedRequest| false);
    assert!(!cursor(&j, 1, Some(1)).truncated);
}

#[test]
fn cursor_truncated_only_on_eviction_past_cursor() {
    let mut j = LocalJournal::new();
    for i in 0..(MAX_RECORDED_REQUESTS + 10) {
        j.record_indexed(1, "f", req(&format!("/{i}")));
    }
    let read = cursor(&j, 1, None);
    assert_eq!(read.entries.len(), MAX_RECORDED_REQUESTS);
    assert_eq!(indices(&read)[0], 11, "oldest surviving index");
    assert_eq!(read.next, (MAX_RECORDED_REQUESTS + 10) as u64);

    assert!(cursor(&j, 1, Some(5)).truncated);
    assert!(cursor(&j, 1, Some(9)).truncated);
    assert!(!cursor(&j, 1, Some(10)).truncated);
    assert!(!cursor(&j, 1, Some(50)).truncated);
    assert!(!cursor(&j, 1, None).truncated);
}

#[test]
fn cursor_since_zero_differs_from_baseline_only_in_truncation() {
    let mut j = LocalJournal::new();
    for i in 0..(MAX_RECORDED_REQUESTS + 3) {
        j.record_indexed(1, "f", req(&format!("/{i}")));
    }
    let baseline = cursor(&j, 1, None);
    let from_zero = cursor(&j, 1, Some(0));
    assert_eq!(indices(&baseline), indices(&from_zero));
    assert_eq!(baseline.next, from_zero.next);
    assert!(!baseline.truncated, "a snapshot cannot have a hole");
    assert!(from_zero.truncated);

    let mut fresh = LocalJournal::new();
    fresh.record_indexed(1, "f", req("/a"));
    assert!(!cursor(&fresh, 1, None).truncated);
    assert!(!cursor(&fresh, 1, Some(0)).truncated);
}

struct DefaultJournal(LocalJournal);

impl RequestJournal for DefaultJournal {
    fn note_request(&mut self, port: u16) {
        self.0.note_request(port);
    }
    fn record(&mut self, port: u16, flow_id: &str, req: RecordedRequest) {
        self.0.record(port, flow_id, req);
    }
    fn read(&self, port: u16) -> JournalRead {
        self.0.read(port)
    }
    fn clear(&mut self, port: u16) -> Result<(), String> {
        self.0.clear(port)
    }
    fn retain<K: Fn(&RecordedRequest) -> bool>(&mut self, port: u16, keep: K) {
        self.0.retain(port, keep);
    }
    fn clear_flow(&mut self, port: u16, flow_id: &str) -> Result<(), String> {
        self.0.clear_flow(port, flow_id)
    }
    fn count(&self, port: u16) -> u64 {
        self.0.count(port)
    }
    fn read_since<K: Fn(&RecordedRequest) -> bool>(
        &self,
        _port: u16,
        _since: Option<u64>,
        _keep: K,
    ) -> Option<JournalReadSince> {
        None
    }
    fn record_indexed(&mut self, port: u16, flow_id: &str, req: RecordedRequest) -> Option<u64> {
        self.record(port, flow_id, req);
        None
    }
}

#[test]
fn default_journal_reports_no_cursor_support() {
    let mut j = DefaultJournal(LocalJournal::new());
    assert_eq!(j.record_indexed(1, "f", req("/a")), None, "no index to report");
    assert_eq!(j.read(1).entries.len(), 1, "but the request was still recorded");
    assert!(j.read_since(1, None, |_: &RecordedRequest| true).is_none());
    assert_eq!(j.read_filtered(1, |r: &RecordedRequest| r.path == "/a").entries.len(), 1);
}

#[test]
fn cap_warns_once_per_fill_not_per_eviction() {
    let mut j = LocalJournal::new();
    for i in 0..(MAX_RECORDED_REQUESTS + 100) {
        j.record(1, "f", req(&format!("/{i}")));
    }
    assert_eq!(j.cap_notices(1), 1);
}

#[test]
fn cap_warning_rearms_after_deliberate_deletions() {
    let mut j = LocalJournal::new();
    let fill = |j: &mut LocalJournal| {
        for i in 0..(MAX_RECORDED_REQUESTS + 5) {
            j.record(1, "f", req(&format!("/{i}")));
        }
    };
    fill(&mut j);
    j.clear(1).expect("local clear is infallible");
    fill(&mut j);
    j.retain(1, |_: &RecordedRequest| false);
    fill(&mut j);
    j.clear_flow(1, "f").expect("local clear_flow is infallible");
    fill(&mut j);
    assert_eq!(j.cap_notices(1), 4);
}

#[test]
fn cap_warning_is_independent_per_port() {
    let mut j = LocalJournal::new();
    for port in [1u16, 2] {
        for i in 0..(MAX_RECORDED_REQUESTS + 5) {
            j.record(port, "f", req(&format!("/{i}")));
        }
    }
    assert_eq!(j.cap_notices(1) + j.cap_notices(2), 2);
}

#[test]
fn local_ports_are_isolated() {
    let mut j = LocalJournal::new();
    j.record(1, "f", req("/a"));
    j.note_request(2);
    assert_eq!(j.read(1).entries.len(), 1);
    assert!(j.read(2).entries.is_empty());
    assert_eq!(j.count(1), 0);
    assert_eq!(j.count(2), 1);
}

fn recording_config() -> ImposterConfig {
    ImposterConfig {
        port: Some(0),
        protocol: "http".to_string(),
        name: None,
        stubs: Vec::new(),
        record_requests: true,
        allow_cors: false,
        strict_behaviors: false,
        default_forward: None,
        default_response: None,
        rift: None,
    }
}

#[test]
fn test_record_request_cap_enforced() {
    let mut imposter = Imposter::new(recording_config()).expect("test imposter");
    for _ in 0..MAX_RECORDED_REQUESTS + 10 {
        imposter.record_request(&req("/"));
    }
    assert_eq!(imposter.get_recorded_requests().len(), MAX_RECORDED_REQUESTS);
}

#[test]
fn test_retain_recorded_requests_preserves_count() {
    let mut imposter = Imposter::new(recording_config()).expect("test imposter");
    let in_space = |space: &str| {
        let mut r = req("/");
        r.headers.push(("X-Mock-Space".to_string(), vec![space.to_string()]));
        r
    };
    imposter.record_request(&in_space("A"));
    imposter.record_request(&in_space("B"));
    imposter.record_request(&in_space("A"));
    for _ in 0..3 {
        imposter.increment_request_count();
    }
    imposter.retain_recorded_requests(|r: &RecordedRequest| {
        r.headers.iter().find(|h| h.0 == "X-Mock-Space").and_then(|h| h.1.first()).map(String::as_str)
            != Some("A")
    });
    assert_eq!(imposter.get_recorded_requests().len(), 1, "only B kept");
    assert_eq!(imposter.get_request_count(), 3);

    imposter.clear_recorded_requests().expect("clear");
    assert_eq!(imposter.get_recorded_requests().len(), 0);
    assert_eq!(imposter.get_request_count(), 0);
}

#[test]
fn an_imposter_reads_its_journal_by_cursor() {
    let mut imposter = Imposter::new(recording_config()).expect("test imposter");
    assert_eq!(imposter.record_request(&req("/a")), Some(1));
    assert_eq!(imposter.record_request(&req("/b")), Some(2));
    let newer = imposter
        .read_recorded_requests_since(Some(1), |_: &RecordedRequest| true)
        .expect("cursor support");
    assert_eq!(paths(&newer), vec!["/b"]);
    let filtered =
        imposter.get_recorded_requests_filtered(|r: &RecordedRequest| r.path == "/a");
    assert_eq!(filtered.entries.len(), 1);
}

#[test]
fn nothing_is_recorded_where_recording_is_off() {
    let mut config = recording_config();
    config.record_requests = false;
    let mut imposter = Imposter::new(config).expect("test imposter");
    assert_eq!(imposter.record_request(&req("/a")), None);
    assert!(imposter.get_recorded_requests().is_empty());
}
