//! Storage of recorded requests, per imposter port.
//!
//! [`LocalJournal`] keeps the newest [`MAX_RECORDED_REQUESTS`] requests of each port under indices
//! that only ever grow, so that a reader can resume from the last index it saw.

use crate::record::{MatchOutcome, RecordModel, RecordedRequest};
use crate::text;
use std::collections::{HashMap, VecDeque};
use vstd::prelude::*;

verus! {

broadcast use vstd::std_specs::hash::group_hash_axioms;

/// The most requests kept per port; the oldest leaves first.
pub const MAX_RECORDED_REQUESTS: usize = 10_000;

/// The recorded requests of a port.
pub struct JournalRead {
    pub entries: Vec<RecordedRequest>,
    /// Whether all of the storage could be read.
    pub complete: bool,
}

/// A recorded request with its index.
#[derive(Debug)]
pub struct JournalEntry {
    pub index: u64,
    pub request: RecordedRequest,
}

/// What was recorded after a cursor.
#[derive(Debug)]
pub struct JournalReadSince {
    pub entries: Vec<JournalEntry>,
    /// The last index given out on the port, zero where none was: the next cursor.
    pub next: u64,
    /// Whether entries after the cursor left to make room for newer ones. A read without a cursor
    /// is never truncated.
    pub truncated: bool,
    /// Whether all of the storage could be read.
    pub complete: bool,
}

/// The items whose flag is set, in order.
pub open spec fn picked<T>(s: Seq<T>, flags: Seq<bool>) -> Seq<T>
    decreases s.len(),
{
    if s.len() == 0 {
        Seq::empty()
    } else if flags[s.len() - 1] {
        picked(s.drop_last(), flags).push(s.last())
    } else {
        picked(s.drop_last(), flags)
    }
}

/// The flags are what a test says of each request.
pub open spec fn flags_of<K: Fn(&RecordedRequest) -> bool>(
    keep: K,
    s: Seq<RecordedRequest>,
    flags: Seq<bool>,
) -> bool {
    flags.len() == s.len() && forall|i: int|
        0 <= i < s.len() ==> call_ensures(keep, (&#[trigger] s[i],), flags[i])
}

/// A test can be put to every request.
pub open spec fn total<K: Fn(&RecordedRequest) -> bool>(keep: K) -> bool {
    forall|r: &RecordedRequest| #[trigger] call_requires(keep, (r,))
}

/// Requests as contracts see them.
pub open spec fn models(s: Seq<RecordedRequest>) -> Seq<RecordModel> {
    Seq::new(s.len(), |i: int| s[i]@)
}

/// A list holds exactly the requests that pass a test, in order.
pub open spec fn filtered<K: Fn(&RecordedRequest) -> bool>(
    keep: K,
    all: Seq<RecordedRequest>,
    kept: Seq<RecordedRequest>,
) -> bool {
    exists|flags: Seq<bool>| #[trigger]
        flags_of(keep, all, flags) && models(kept) == models(picked(all, flags))
}

/// The same requests, as contracts see them.
pub open spec fn same_requests(a: Seq<RecordedRequest>, b: Seq<RecordedRequest>) -> bool {
    models(a) == models(b)
}

/// A list holds exactly the stored requests that pass a test, put to them or to copies of them.
pub open spec fn read_through<K: Fn(&RecordedRequest) -> bool>(
    keep: K,
    stored: Seq<RecordedRequest>,
    kept: Seq<RecordedRequest>,
) -> bool {
    exists|all: Seq<RecordedRequest>| #[trigger]
        same_requests(all, stored) && filtered(keep, all, kept)
}

/// The requests of flow-tagged entries.
pub open spec fn requests_of(s: Seq<(String, RecordedRequest)>) -> Seq<RecordedRequest> {
    Seq::new(s.len(), |i: int| s[i].1)
}

/// What is left are exactly the entries whose request passes a test, in order.
pub open spec fn thinned<K: Fn(&RecordedRequest) -> bool>(
    keep: K,
    before: Seq<(String, RecordedRequest)>,
    after: Seq<(String, RecordedRequest)>,
) -> bool {
    exists|flags: Seq<bool>| #[trigger]
        flags_of(keep, requests_of(before), flags) && after == picked(before, flags)
}

/// Whether each entry belongs to another flow.
pub open spec fn other_flow(s: Seq<(String, RecordedRequest)>, flow_id: Seq<char>) -> Seq<bool> {
    Seq::new(s.len(), |i: int| s[i].0@ != flow_id)
}

/// Stored entries as contracts see them.
pub open spec fn stored_models(entries: Seq<(u64, String, RecordedRequest)>) -> Seq<
    (u64, RecordModel),
> {
    Seq::new(entries.len(), |i: int| (entries[i].0, entries[i].2@))
}

/// Read entries as contracts see them.
pub open spec fn entry_models(entries: Seq<JournalEntry>) -> Seq<(u64, RecordModel)> {
    Seq::new(entries.len(), |i: int| (entries[i].index, entries[i].request@))
}

/// Which entries lie after a cursor and pass a test.
pub open spec fn after_cursor(
    entries: Seq<(u64, String, RecordedRequest)>,
    cut: u64,
    passes: Seq<bool>,
) -> Seq<bool> {
    Seq::new(entries.len(), |i: int| entries[i].0 > cut && passes[i])
}

/// The flags are what a test says of each request after the cursor.
pub open spec fn passes_after<K: Fn(&RecordedRequest) -> bool>(
    keep: K,
    entries: Seq<(u64, String, RecordedRequest)>,
    cut: u64,
    passes: Seq<bool>,
) -> bool {
    passes.len() == entries.len() && forall|i: int|
        0 <= i < entries.len() && entries[i].0 > cut ==> call_ensures(
            keep,
            (&(#[trigger] entries[i]).2,),
            passes[i],
        )
}

/// A read holds exactly the entries after the cursor that pass a test.
pub open spec fn read_after<K: Fn(&RecordedRequest) -> bool>(
    keep: K,
    entries: Seq<(u64, String, RecordedRequest)>,
    cut: u64,
    got: Seq<JournalEntry>,
) -> bool {
    exists|passes: Seq<bool>| #[trigger]
        passes_after(keep, entries, cut, passes) && entry_models(got) == stored_models(
            picked(entries, after_cursor(entries, cut, passes)),
        )
}

/// The cursor a read starts from; without one, before everything.
pub open spec fn cut_of(since: Option<u64>) -> u64 {
    match since {
        Some(s) => s,
        None => 0,
    }
}

/// The newest entry has this index, flow and request.
pub open spec fn newest_is(
    entries: Option<Seq<(u64, String, RecordedRequest)>>,
    index: u64,
    flow_id: Seq<char>,
    req: RecordModel,
) -> bool {
    &&& entries is Some
    &&& entries->0.len() > 0
    &&& entries->0.last().0 == index
    &&& entries->0.last().1@ == flow_id
    &&& entries->0.last().2@ == req
}

/// Storage of recorded requests, by imposter port. How long a backend retains what is recorded is
/// its own affair; what it says it has cleared is gone.
pub trait RequestJournal: Sized {
    /// The journal's own invariant.
    closed spec fn wf(&self) -> bool {
        arbitrary()
    }

    /// What is retained of a port, oldest first, with the flow it was recorded under.
    closed spec fn retained(&self, port: u16) -> Seq<(String, RecordedRequest)> {
        arbitrary()
    }

    /// How many requests a port has seen since its last clear, modulo the counter's width.
    closed spec fn counted(&self, port: u16) -> u64 {
        arbitrary()
    }

    /// Whether the port can take one more record.
    closed spec fn accepts(&self, port: u16) -> bool {
        arbitrary()
    }

    /// Whether all of the port's storage can be read.
    closed spec fn readable(&self, port: u16) -> bool {
        arbitrary()
    }

    /// Whether all of the port's storage can be removed.
    closed spec fn erasable(&self, port: u16) -> bool {
        arbitrary()
    }

    /// What is retained of a port under stable indices, where the backend has them.
    closed spec fn indexed(&self, port: u16) -> Option<Seq<(u64, String, RecordedRequest)>> {
        arbitrary()
    }

    /// The last index given out on a port, zero before any.
    closed spec fn last_given(&self, port: u16) -> u64 {
        arbitrary()
    }

    /// The highest index of a port that left to make room, zero before any.
    closed spec fn last_evicted(&self, port: u16) -> u64 {
        arbitrary()
    }

    /// Whether recording a request led from one state of the journal to the other.
    closed spec fn recorded(
        before: Self,
        after: Self,
        port: u16,
        flow_id: Seq<char>,
        req: RecordModel,
    ) -> bool {
        arbitrary()
    }

    /// Counts a request, recorded or not.
    fn note_request(&mut self, port: u16)
        requires
            old(self).wf(),
        ensures
            final(self).wf(),
            final(self).counted(port) == (if old(self).counted(port) == u64::MAX {
                0
            } else {
                (old(self).counted(port) + 1) as u64
            }),
            forall|p: u16| #[trigger] final(self).retained(p) == old(self).retained(p),
            forall|p: u16| #[trigger] final(self).accepts(p) == old(self).accepts(p),
            forall|p: u16| p != port ==> #[trigger] final(self).counted(p) == old(self).counted(p),
    ;

    /// Records a request under its flow.
    fn record(&mut self, port: u16, flow_id: &str, req: RecordedRequest)
        requires
            old(self).wf(),
            old(self).accepts(port),
        ensures
            final(self).wf(),
            Self::recorded(*old(self), *final(self), port, flow_id@, req@),
            forall|p: u16| #[trigger] final(self).counted(p) == old(self).counted(p),
            forall|p: u16|
                p != port ==> #[trigger] final(self).retained(p) == old(self).retained(p),
    ;

    /// The requests retained of a port.
    fn read(&self, port: u16) -> (r: JournalRead)
        requires
            self.wf(),
        ensures
            self.readable(port) ==> r.complete,
            r.complete ==> models(r.entries@) == models(requests_of(self.retained(port))),
    ;

    /// The requests retained of a port that pass a test.
    fn read_filtered<K: Fn(&RecordedRequest) -> bool>(&self, port: u16, keep: K) -> (r: JournalRead)
        requires
            self.wf(),
            total(keep),
        ensures
            self.readable(port) ==> r.complete,
            r.complete ==> read_through(keep, requests_of(self.retained(port)), r.entries@),
    {
        let read = self.read(port);
        let entries: Vec<RecordedRequest> = keep_passing(&read.entries, keep);
        proof {
            if read.complete {
                assert(same_requests(read.entries@, requests_of(self.retained(port))));
                assert(filtered(keep, read.entries@, entries@));
            }
        }
        JournalRead { entries, complete: read.complete }
    }

    /// Removes a port's requests and resets its count. An error says that something may be left; it
    /// comes only where not all of the storage can be removed.
    fn clear(&mut self, port: u16) -> (r: Result<(), String>)
        requires
            old(self).wf(),
        ensures
            final(self).wf(),
            old(self).erasable(port) ==> r is Ok,
            r is Ok ==> final(self).retained(port).len() == 0 && final(self).counted(port) == 0,
            forall|p: u16|
                p != port ==> #[trigger] final(self).retained(p) == old(self).retained(p),
            forall|p: u16| p != port ==> #[trigger] final(self).counted(p) == old(self).counted(p),
    ;

    /// Keeps the requests of a port that pass a test. The count stays.
    fn retain<K: Fn(&RecordedRequest) -> bool>(&mut self, port: u16, keep: K)
        requires
            old(self).wf(),
            total(keep),
        ensures
            final(self).wf(),
            thinned(keep, old(self).retained(port), final(self).retained(port)),
            forall|p: u16|
                p != port ==> #[trigger] final(self).retained(p) == old(self).retained(p),
            forall|p: u16| #[trigger] final(self).counted(p) == old(self).counted(p),
    ;

    /// Removes the requests of one flow of a port. The count stays. An error says that something
    /// may be left.
    fn clear_flow(&mut self, port: u16, flow_id: &str) -> (r: Result<(), String>)
        requires
            old(self).wf(),
        ensures
            final(self).wf(),
            old(self).erasable(port) ==> r is Ok,
            r is Ok ==> final(self).retained(port) == picked(
                old(self).retained(port),
                other_flow(old(self).retained(port), flow_id@),
            ),
            forall|p: u16|
                p != port ==> #[trigger] final(self).retained(p) == old(self).retained(p),
            forall|p: u16| #[trigger] final(self).counted(p) == old(self).counted(p),
    ;

    /// How many requests a port has seen.
    fn count(&self, port: u16) -> (r: u64)
        requires
            self.wf(),
        ensures
            r == self.counted(port),
    ;

    /// What was recorded after a cursor and passes a test. `None` where the backend has no stable
    /// indices.
    fn read_since<K: Fn(&RecordedRequest) -> bool>(
        &self,
        port: u16,
        since: Option<u64>,
        keep: K,
    ) -> (r: Option<JournalReadSince>)
        requires
            self.wf(),
            total(keep),
        ensures
            r is Some == self.indexed(port) is Some,
            r is Some && self.readable(port) ==> r->0.complete,
            r is Some && r->0.complete ==> {
                &&& read_after(keep, self.indexed(port)->0, cut_of(since), r->0.entries@)
                &&& r->0.next == self.last_given(port)
                &&& r->0.truncated == (since is Some && self.last_evicted(port) > since->0)
            },
    ;

    /// Records a request and says under which index. `None` where the backend has no stable
    /// indices.
    fn record_indexed(&mut self, port: u16, flow_id: &str, req: RecordedRequest) -> (r: Option<u64>)
        requires
            old(self).wf(),
            old(self).accepts(port),
        ensures
            final(self).wf(),
            Self::recorded(*old(self), *final(self), port, flow_id@, req@),
            r is Some == final(self).indexed(port) is Some,
            r is Some ==> newest_is(final(self).indexed(port), r->0, flow_id@, req@),
            forall|p: u16| #[trigger] final(self).counted(p) == old(self).counted(p),
            forall|p: u16|
                p != port ==> #[trigger] final(self).retained(p) == old(self).retained(p),
    ;

    /// Notes what matching the request under an index came to. Does nothing where the request is
    /// gone, or the backend has no stable indices.
    fn attach_match(&mut self, port: u16, index: u64, outcome: MatchOutcome)
        requires
            old(self).wf(),
        ensures
            final(self).wf(),
            forall|p: u16| #[trigger] final(self).counted(p) == old(self).counted(p),
            forall|p: u16|
                p != port ==> #[trigger] final(self).retained(p) == old(self).retained(p),
        default_ensures
            *final(self) == *old(self),
    {
    }

    /// Notes what the request under an index was answered with, and how long that took. Does
    /// nothing where the request is gone, or the backend has no stable indices.
    fn attach_response(&mut self, port: u16, index: u64, status: u16, latency_ms: u64)
        requires
            old(self).wf(),
        ensures
            final(self).wf(),
            forall|p: u16| #[trigger] final(self).counted(p) == old(self).counted(p),
            forall|p: u16|
                p != port ==> #[trigger] final(self).retained(p) == old(self).retained(p),
        default_ensures
            *final(self) == *old(self),
    {
    }
}

proof fn lemma_picked_step<T>(s: Seq<T>, flags: Seq<bool>, i: int)
    requires
        0 <= i < s.len(),
        flags.len() > i,
    ensures
        picked(s.take(i + 1), flags) == (if flags[i] {
            picked(s.take(i), flags).push(s[i])
        } else {
            picked(s.take(i), flags)
        }),
{
    assert(s.take(i + 1).drop_last() =~= s.take(i));
}

/// What is picked depends on the flags of the items alone.
proof fn lemma_picked_flags<T>(s: Seq<T>, a: Seq<bool>, b: Seq<bool>)
    requires
        a.len() >= s.len(),
        b.len() >= s.len(),
        forall|i: int| 0 <= i < s.len() ==> a[i] == b[i],
    ensures
        picked(s, a) == picked(s, b),
    decreases s.len(),
{
    if s.len() > 0 {
        lemma_picked_flags(s.drop_last(), a, b);
    }
}

/// Copies of the requests that pass a test.
fn keep_passing<K: Fn(&RecordedRequest) -> bool>(all: &Vec<RecordedRequest>, keep: K) -> (r: Vec<
    RecordedRequest,
>)
    requires
        total(keep),
    ensures
        filtered(keep, all@, r@),
{
    let mut out: Vec<RecordedRequest> = Vec::new();
    let ghost mut flags: Seq<bool> = Seq::empty();
    let mut i: usize = 0;
    while i < all.len()
        invariant
            total(keep),
            i <= all@.len(),
            flags.len() == i,
            forall|k: int| 0 <= k < i ==> call_ensures(keep, (&#[trigger] all@[k],), flags[k]),
            models(out@) == models(picked(all@.take(i as int), flags)),
        decreases all@.len() - i,
    {
        let kept: bool = keep(&all[i]);
        let ghost before = flags;
        let ghost had = out@;
        proof {
            flags = flags.push(kept);
            lemma_picked_flags(all@.take(i as int), before, flags);
            lemma_picked_step(all@, flags, i as int);
        }
        if kept {
            out.push(all[i].copy());
            proof {
                let p = picked(all@.take(i as int), flags);
                assert(models(out@) =~= models(had).push(all@[i as int]@));
                assert(models(p.push(all@[i as int])) =~= models(p).push(all@[i as int]@));
            }
        }
        i += 1;
    }
    proof {
        assert(all@.take(all@.len() as int) =~= all@);
        assert(flags_of(keep, all@, flags));
    }
    out
}

/// One port's part of the journal.
struct PortSlot {
    /// Index, flow and request, oldest first.
    entries: VecDeque<(u64, String, RecordedRequest)>,
    count: u64,
    /// The last index given out. It never goes back.
    last_index: u64,
    /// The highest index that left to make room. Deliberate deletions do not move it.
    evicted_through: u64,
    /// Whether reaching the cap was noticed since the last deliberate deletion.
    cap_warned: bool,
    /// How often reaching the cap was noticed.
    cap_notices: u64,
}

/// Indices grow strictly from one entry to the next, up to the last one given out; what was
/// evicted lies below all that is kept.
pub open spec fn ordered(
    entries: Seq<(u64, String, RecordedRequest)>,
    last_index: u64,
    evicted_through: u64,
) -> bool {
    &&& entries.len() <= MAX_RECORDED_REQUESTS
    &&& evicted_through <= last_index
    &&& forall|i: int, j: int|
        0 <= i < j < entries.len() ==> (#[trigger] entries[i]).0 < (#[trigger] entries[j]).0
    &&& forall|i: int|
        0 <= i < entries.len() ==> evicted_through < (#[trigger] entries[i]).0 <= last_index
}

/// Entries without their indices.
pub open spec fn flows_of(entries: Seq<(u64, String, RecordedRequest)>) -> Seq<
    (String, RecordedRequest),
> {
    Seq::new(entries.len(), |i: int| (entries[i].1, entries[i].2))
}

/// Whether the cap notices count one more.
pub open spec fn next_notices(notices: u64) -> u64 {
    if notices == u64::MAX {
        notices
    } else {
        (notices + 1) as u64
    }
}

proof fn lemma_picked_flows(entries: Seq<(u64, String, RecordedRequest)>, flags: Seq<bool>)
    requires
        flags.len() == entries.len(),
    ensures
        flows_of(picked(entries, flags)) == picked(flows_of(entries), flags),
    decreases entries.len(),
{
    if entries.len() > 0 {
        let rest = entries.drop_last();
        lemma_picked_flags(rest, flags, flags.drop_last());
        lemma_picked_flags(flows_of(rest), flags, flags.drop_last());
        lemma_picked_flows(rest, flags.drop_last());
        assert(flows_of(entries).drop_last() =~= flows_of(rest));
        assert(flows_of(picked(rest, flags).push(entries.last())) =~= flows_of(
            picked(rest, flags),
        ).push((entries.last().1, entries.last().2)));
    }
}

/// What is picked of ordered entries is ordered.
proof fn lemma_picked_ordered(
    entries: Seq<(u64, String, RecordedRequest)>,
    flags: Seq<bool>,
    last_index: u64,
    evicted_through: u64,
)
    requires
        ordered(entries, last_index, evicted_through),
        flags.len() >= entries.len(),
    ensures
        ordered(picked(entries, flags), last_index, evicted_through),
        picked(entries, flags).len() <= entries.len(),
        forall|i: int|
            0 <= i < picked(entries, flags).len() ==> entries.contains(
                #[trigger] picked(entries, flags)[i],
            ),
    decreases entries.len(),
{
    if entries.len() > 0 {
        let rest = entries.drop_last();
        assert(ordered(rest, last_index, evicted_through)) by {
            assert forall|i: int, j: int| 0 <= i < j < rest.len() implies (#[trigger] rest[i]).0 < (
            #[trigger] rest[j]).0 by {
                assert(entries[i].0 < entries[j].0);
            }
            assert forall|i: int| 0 <= i < rest.len() implies evicted_through < (
            #[trigger] rest[i]).0 <= last_index by {
                assert(evicted_through < entries[i].0);
            }
        }
        lemma_picked_ordered(rest, flags, last_index, evicted_through);
        let had = picked(rest, flags);
        let got = picked(entries, flags);
        assert forall|i: int| 0 <= i < got.len() implies entries.contains(#[trigger] got[i]) by {
            if i < had.len() {
                assert(got[i] == had[i]);
                let k = choose|k: int| 0 <= k < rest.len() && rest[k] == had[i];
                assert(entries[k] == got[i]);
            } else {
                assert(entries[entries.len() - 1] == got[i]);
            }
        }
        assert forall|i: int, j: int| 0 <= i < j < got.len() implies (#[trigger] got[i]).0 < (
        #[trigger] got[j]).0 by {
            assert(got[i] == had[i]);
            if j < had.len() {
                assert(got[j] == had[j]);
            } else {
                let k = choose|k: int| 0 <= k < rest.len() && rest[k] == had[i];
                assert(rest.contains(had[i]));
                assert(entries[k].0 < entries[entries.len() - 1].0);
            }
        }
        assert forall|i: int| 0 <= i < got.len() implies evicted_through < (#[trigger] got[i]).0
            <= last_index by {
            let k = choose|k: int| 0 <= k < entries.len() && entries[k] == got[i];
            assert(entries.contains(got[i]));
            assert(evicted_through < entries[k].0);
        }
    }
}

impl PortSlot {
    spec fn wf(&self) -> bool {
        ordered(self.entries@, self.last_index, self.evicted_through)
    }

    fn new() -> (r: Self)
        ensures
            r.wf(),
            r.entries@.len() == 0,
            r.count == 0,
            r.last_index == 0,
            r.evicted_through == 0,
            !r.cap_warned,
            r.cap_notices == 0,
    {
        PortSlot {
            entries: VecDeque::new(),
            count: 0,
            last_index: 0,
            evicted_through: 0,
            cap_warned: false,
            cap_notices: 0,
        }
    }

    fn record(&mut self, flow: String, req: RecordedRequest) -> (index: u64)
        requires
            old(self).wf(),
            old(self).last_index < u64::MAX,
        ensures
            final(self).wf(),
            index == old(self).last_index + 1,
            final(self).last_index == index,
            final(self).count == old(self).count,
            final(self).entries@ == appended(old(self).entries@, (index, flow, req)),
            final(self).evicted_through == (if old(self).entries@.len() >= MAX_RECORDED_REQUESTS {
                old(self).entries@[0].0
            } else {
                old(self).evicted_through
            }),
            final(self).cap_warned == (old(self).cap_warned || old(self).entries@.len()
                >= MAX_RECORDED_REQUESTS),
            final(self).cap_notices == (if old(self).entries@.len() >= MAX_RECORDED_REQUESTS
                && !old(self).cap_warned {
                next_notices(old(self).cap_notices)
            } else {
                old(self).cap_notices
            }),
    {
        let ghost before = self.entries@;
        if self.entries.len() >= MAX_RECORDED_REQUESTS {
            if !self.cap_warned {
                self.cap_warned = true;
                if self.cap_notices < u64::MAX {
                    self.cap_notices = self.cap_notices + 1;
                }
            }
            if let Some((evicted, _, _)) = self.entries.pop_front() {
                self.evicted_through = evicted;
            }
            proof {
                assert(self.entries@ =~= before.drop_first());
                assert forall|i: int, j: int|
                    0 <= i < j < self.entries@.len() implies (#[trigger] self.entries@[i]).0 < (
                #[trigger] self.entries@[j]).0 by {
                    assert(before[i + 1].0 < before[j + 1].0);
                }
                assert forall|i: int| 0 <= i < self.entries@.len() implies self.evicted_through < (
                #[trigger] self.entries@[i]).0 <= self.last_index by {
                    assert(before[0].0 < before[i + 1].0);
                }
            }
        }
        let index: u64 = self.last_index + 1;
        self.last_index = index;
        self.entries.push_back((index, flow, req));
        index
    }

    /// The place of an index among the entries.
    fn find(&self, index: u64) -> (r: Option<usize>)
        requires
            self.wf(),
        ensures
            (match r {
                Some(i) => i < self.entries@.len() && self.entries@[i as int].0 == index,
                None => forall|i: int|
                    0 <= i < self.entries@.len() ==> (#[trigger] self.entries@[i]).0 != index,
            }),
    {
        let mut low: usize = 0;
        let mut high: usize = self.entries.len();
        while low < high
            invariant
                self.wf(),
                low <= high <= self.entries@.len(),
                forall|i: int| 0 <= i < low ==> (#[trigger] self.entries@[i]).0 < index,
                forall|i: int|
                    high <= i < self.entries@.len() ==> (#[trigger] self.entries@[i]).0 > index,
            decreases high - low,
        {
            let mid: usize = low + (high - low) / 2;
            let at: u64 = self.entries[mid].0;
            if at == index {
                return Some(mid);
            }
            if at < index {
                proof {
                    assert forall|i: int| 0 <= i < mid + 1 implies (#[trigger] self.entries@[i]).0
                        < index by {
                        if i < mid {
                            assert(self.entries@[i].0 < self.entries@[mid as int].0);
                        }
                    }
                }
                low = mid + 1;
            } else {
                proof {
                    assert forall|i: int| mid <= i < self.entries@.len() implies (
                    #[trigger] self.entries@[i]).0 > index by {
                        if i > mid {
                            assert(self.entries@[mid as int].0 < self.entries@[i].0);
                        }
                    }
                }
                high = mid;
            }
        }
        None
    }

    fn attach_match(&mut self, index: u64, outcome: MatchOutcome)
        requires
            old(self).wf(),
        ensures
            final(self).wf(),
            same_but_entries(*old(self), *final(self)),
            noted(
                old(self).entries@,
                final(self).entries@,
                index,
                |r: RecordedRequest| RecordedRequest { match_outcome: Some(outcome), ..r },
            ),
    {
        if let Some(i) = self.find(index) {
            let ghost before = self.entries@;
            if let Some((at, flow, req)) = self.entries.remove(i) {
                let ghost was = req;
                let mut req = req;
                req.match_outcome = Some(outcome);
                self.entries.insert(i, (at, flow, req));
                proof {
                    assert(self.entries@ =~= before.update(i as int, (at, flow, req)));
                    assert(before[i as int] == (at, flow, was));
                }
            }
        }
    }

    fn attach_response(&mut self, index: u64, status: u16, latency_ms: u64)
        requires
            old(self).wf(),
        ensures
            final(self).wf(),
            same_but_entries(*old(self), *final(self)),
            noted(
                old(self).entries@,
                final(self).entries@,
                index,
                |r: RecordedRequest|
                    RecordedRequest { status: Some(status), latency_ms: Some(latency_ms), ..r },
            ),
    {
        if let Some(i) = self.find(index) {
            let ghost before = self.entries@;
            if let Some((at, flow, req)) = self.entries.remove(i) {
                let ghost was = req;
                let mut req = req;
                req.status = Some(status);
                req.latency_ms = Some(latency_ms);
                self.entries.insert(i, (at, flow, req));
                proof {
                    assert(self.entries@ =~= before.update(i as int, (at, flow, req)));
                    assert(before[i as int] == (at, flow, was));
                }
            }
        }
    }
}

/// Nothing of a slot but its entries differs.
spec fn same_but_entries(a: PortSlot, b: PortSlot) -> bool {
    &&& b.count == a.count
    &&& b.last_index == a.last_index
    &&& b.evicted_through == a.evicted_through
    &&& b.cap_warned == a.cap_warned
    &&& b.cap_notices == a.cap_notices
}

/// The entry joins at the end; where the port is full, the oldest leaves.
pub open spec fn appended(
    entries: Seq<(u64, String, RecordedRequest)>,
    e: (u64, String, RecordedRequest),
) -> Seq<(u64, String, RecordedRequest)> {
    if entries.len() >= MAX_RECORDED_REQUESTS {
        entries.drop_first().push(e)
    } else {
        entries.push(e)
    }
}

/// The request under an index was annotated, and no other entry changed.
pub open spec fn noted(
    before: Seq<(u64, String, RecordedRequest)>,
    after: Seq<(u64, String, RecordedRequest)>,
    index: u64,
    note: spec_fn(RecordedRequest) -> RecordedRequest,
) -> bool {
    &&& after.len() == before.len()
    &&& forall|i: int|
        0 <= i < before.len() ==> {
            &&& (#[trigger] after[i]).0 == before[i].0
            &&& after[i].1 == before[i].1
            &&& after[i].2 == (if before[i].0 == index {
                note(before[i].2)
            } else {
                before[i].2
            })
        }
}

/// The journal an imposter keeps for itself, in memory.
pub struct LocalJournal {
    ports: HashMap<u16, PortSlot>,
}

impl LocalJournal {
    /// What is kept of a port, with its indices.
    pub closed spec fn stored(&self, port: u16) -> Seq<(u64, String, RecordedRequest)> {
        if self.ports@.dom().contains(port) {
            self.ports@[port].entries@
        } else {
            Seq::empty()
        }
    }

    /// The last index given out on a port.
    pub closed spec fn last_index(&self, port: u16) -> u64 {
        if self.ports@.dom().contains(port) {
            self.ports@[port].last_index
        } else {
            0
        }
    }

    /// The highest index of a port that left to make room.
    pub closed spec fn evicted_through(&self, port: u16) -> u64 {
        if self.ports@.dom().contains(port) {
            self.ports@[port].evicted_through
        } else {
            0
        }
    }

    /// Whether a port's cap was noticed since the last deliberate deletion.
    pub closed spec fn warned(&self, port: u16) -> bool {
        self.ports@.dom().contains(port) && self.ports@[port].cap_warned
    }

    /// How often a port's cap was noticed.
    pub closed spec fn notices(&self, port: u16) -> u64 {
        if self.ports@.dom().contains(port) {
            self.ports@[port].cap_notices
        } else {
            0
        }
    }

    /// An empty journal.
    pub fn new() -> (r: Self)
        ensures
            r.wf(),
            forall|p: u16| #[trigger] r.stored(p).len() == 0,
            forall|p: u16| #[trigger] r.retained(p).len() == 0,
            forall|p: u16| #[trigger] r.counted(p) == 0,
            forall|p: u16| #[trigger] r.last_index(p) == 0,
            forall|p: u16| #[trigger] r.evicted_through(p) == 0,
            forall|p: u16| !#[trigger] r.warned(p),
            forall|p: u16| #[trigger] r.notices(p) == 0,
            forall|p: u16| #[trigger] r.accepts(p),
    {
        LocalJournal { ports: HashMap::new() }
    }

    /// How often the cap of a port was reached anew: once per filling up, not once per eviction.
    pub fn cap_notices(&self, port: u16) -> (n: u64)
        ensures
            n == self.notices(port),
    {
        match self.ports.get(&port) {
            Some(s) => s.cap_notices,
            None => 0,
        }
    }

    /// Whether the port can take one more record: an index is left for it.
    pub fn has_room(&self, port: u16) -> (r: bool)
        ensures
            r == self.accepts(port),
    {
        match self.ports.get(&port) {
            Some(s) => s.last_index < u64::MAX,
            None => true,
        }
    }

    /// Takes a port's slot out.
    fn take(&mut self, port: u16) -> (s: PortSlot)
        requires
            old(self).wf(),
        ensures
            final(self).wf(),
            s.wf(),
            s.entries@ == old(self).stored(port),
            s.count == old(self).counted(port),
            s.last_index == old(self).last_index(port),
            s.evicted_through == old(self).evicted_through(port),
            s.cap_warned == old(self).warned(port),
            s.cap_notices == old(self).notices(port),
            final(self).ports@ == old(self).ports@.remove(port),
    {
        match self.ports.remove(&port) {
            Some(s) => s,
            None => {
                proof {
                    assert(self.ports@ =~= old(self).ports@.remove(port));
                }
                PortSlot::new()
            },
        }
    }

    /// Puts a port's slot in.
    fn put(&mut self, port: u16, s: PortSlot)
        requires
            old(self).wf(),
            s.wf(),
        ensures
            final(self).wf(),
            final(self).ports@ == old(self).ports@.insert(port, s),
    {
        self.ports.insert(port, s);
    }
}

/// Nothing of the other ports differs.
pub open spec fn other_ports_kept(a: LocalJournal, b: LocalJournal, port: u16) -> bool {
    forall|p: u16|
        p != port ==> {
            &&& #[trigger] b.stored(p) == a.stored(p)
            &&& b.counted(p) == a.counted(p)
            &&& b.last_index(p) == a.last_index(p)
            &&& b.evicted_through(p) == a.evicted_through(p)
            &&& b.warned(p) == a.warned(p)
            &&& b.notices(p) == a.notices(p)
            &&& b.retained(p) == a.retained(p)
        }
}

impl RequestJournal for LocalJournal {
    closed spec fn wf(&self) -> bool {
        forall|p: u16| self.ports@.dom().contains(p) ==> (#[trigger] self.ports@[p]).wf()
    }

    open spec fn retained(&self, port: u16) -> Seq<(String, RecordedRequest)> {
        flows_of(self.stored(port))
    }

    closed spec fn counted(&self, port: u16) -> u64 {
        if self.ports@.dom().contains(port) {
            self.ports@[port].count
        } else {
            0
        }
    }

    open spec fn accepts(&self, port: u16) -> bool {
        self.last_index(port) < u64::MAX
    }

    open spec fn readable(&self, port: u16) -> bool {
        true
    }

    open spec fn erasable(&self, port: u16) -> bool {
        true
    }

    open spec fn last_given(&self, port: u16) -> u64 {
        self.last_index(port)
    }

    open spec fn last_evicted(&self, port: u16) -> u64 {
        self.evicted_through(port)
    }

    open spec fn indexed(&self, port: u16) -> Option<Seq<(u64, String, RecordedRequest)>> {
        Some(self.stored(port))
    }

    /// The request has the next index, and stands last. Where the port was full the oldest left.
    open spec fn recorded(
        before: Self,
        after: Self,
        port: u16,
        flow_id: Seq<char>,
        req: RecordModel,
    ) -> bool {
        let newest = after.stored(port).last();
        &&& after.stored(port).len() > 0
        &&& newest.0 == before.last_index(port) + 1
        &&& newest.1@ == flow_id
        &&& newest.2@ == req
        &&& after.stored(port) == appended(before.stored(port), newest)
        &&& after.last_index(port) == newest.0
        &&& after.evicted_through(port) == (if before.stored(port).len() >= MAX_RECORDED_REQUESTS {
            before.stored(port)[0].0
        } else {
            before.evicted_through(port)
        })
        &&& other_ports_kept(before, after, port)
    }

    fn note_request(&mut self, port: u16)
        ensures
            other_ports_kept(*old(self), *final(self), port),
            final(self).stored(port) == old(self).stored(port),
            final(self).last_index(port) == old(self).last_index(port),
            final(self).evicted_through(port) == old(self).evicted_through(port),
            final(self).notices(port) == old(self).notices(port),
    {
        let mut s: PortSlot = self.take(port);
        s.count = if s.count == u64::MAX {
            0
        } else {
            s.count + 1
        };
        self.put(port, s);
    }

    fn record(&mut self, port: u16, flow_id: &str, req: RecordedRequest) {
        self.record_indexed(port, flow_id, req);
    }

    /// The index is the next one, and the request joins at the end. Where the port is full the
    /// oldest leaves, and how far that went is kept.
    fn record_indexed(&mut self, port: u16, flow_id: &str, req: RecordedRequest) -> (r: Option<u64>)
        ensures
            r is Some,
            r->0 == old(self).last_index(port) + 1,
            final(self).last_index(port) == r->0,
            final(self).stored(port).len() > 0,
            final(self).stored(port).last().0 == r->0,
            final(self).stored(port).last().1@ == flow_id@,
            final(self).stored(port).last().2 == req,
            final(self).stored(port) == appended(
                old(self).stored(port),
                final(self).stored(port).last(),
            ),
            final(self).evicted_through(port) == (if old(self).stored(port).len()
                >= MAX_RECORDED_REQUESTS {
                old(self).stored(port)[0].0
            } else {
                old(self).evicted_through(port)
            }),
            final(self).warned(port) == (old(self).warned(port) || old(self).stored(port).len()
                >= MAX_RECORDED_REQUESTS),
            final(self).notices(port) == (if old(self).stored(port).len() >= MAX_RECORDED_REQUESTS
                && !old(self).warned(port) {
                next_notices(old(self).notices(port))
            } else {
                old(self).notices(port)
            }),
            other_ports_kept(*old(self), *final(self), port),
    {
        let flow: String = flow_id.to_owned();
        let mut s: PortSlot = self.take(port);
        let index: u64 = s.record(flow, req);
        self.put(port, s);
        Some(index)
    }

    fn read(&self, port: u16) -> (r: JournalRead) {
        let mut out: Vec<RecordedRequest> = Vec::new();
        if let Some(s) = self.ports.get(&port) {
            let mut i: usize = 0;
            while i < s.entries.len()
                invariant
                    i <= s.entries@.len(),
                    out@.len() == i,
                    forall|k: int| 0 <= k < i ==> (#[trigger] out@[k])@ == s.entries@[k].2@,
                decreases s.entries@.len() - i,
            {
                out.push(s.entries[i].2.copy());
                i += 1;
            }
        }
        proof {
            assert(models(out@) =~= models(requests_of(self.retained(port))));
        }
        JournalRead { entries: out, complete: true }
    }

    fn read_filtered<K: Fn(&RecordedRequest) -> bool>(&self, port: u16, keep: K) -> (r: JournalRead)
        ensures
            filtered(keep, requests_of(self.retained(port)), r.entries@),
    {
        let mut out: Vec<RecordedRequest> = Vec::new();
        let ghost all = requests_of(self.retained(port));
        let ghost mut flags: Seq<bool> = Seq::empty();
        if let Some(s) = self.ports.get(&port) {
            let mut i: usize = 0;
            while i < s.entries.len()
                invariant
                    total(keep),
                    i <= s.entries@.len(),
                    all.len() == s.entries@.len(),
                    forall|k: int| 0 <= k < all.len() ==> #[trigger] all[k] == s.entries@[k].2,
                    flags.len() == i,
                    forall|k: int|
                        0 <= k < i ==> call_ensures(keep, (&#[trigger] all[k],), flags[k]),
                    models(out@) == models(picked(all.take(i as int), flags)),
                decreases s.entries@.len() - i,
            {
                let kept: bool = keep(&s.entries[i].2);
                let ghost before = flags;
                let ghost had = out@;
                proof {
                    flags = flags.push(kept);
                    lemma_picked_flags(all.take(i as int), before, flags);
                    lemma_picked_step(all, flags, i as int);
                    assert(all[i as int] == s.entries@[i as int].2);
                }
                if kept {
                    out.push(s.entries[i].2.copy());
                    proof {
                        let p = picked(all.take(i as int), flags);
                        assert(models(out@) =~= models(had).push(all[i as int]@));
                        assert(models(p.push(all[i as int])) =~= models(p).push(all[i as int]@));
                    }
                }
                i += 1;
            }
        }
        proof {
            assert(all.take(all.len() as int) =~= all);
            assert(flags_of(keep, all, flags));
            assert(filtered(keep, all, out@));
            assert(same_requests(all, all));
        }
        JournalRead { entries: out, complete: true }
    }

    /// The entries after the cursor that pass the test. The next cursor is the last index given
    /// out, whether its entry is kept or passes or not.
    fn read_since<K: Fn(&RecordedRequest) -> bool>(
        &self,
        port: u16,
        since: Option<u64>,
        keep: K,
    ) -> (r: Option<JournalReadSince>)
        ensures
            r is Some,
            r->0.next == self.last_index(port),
            r->0.truncated == (since is Some && self.evicted_through(port) > since->0),
            r->0.complete,
    {
        let cut: u64 = match since {
            Some(s) => s,
            None => 0,
        };
        let mut out: Vec<JournalEntry> = Vec::new();
        let mut next: u64 = 0;
        let mut evicted: u64 = 0;
        let ghost all = self.stored(port);
        let ghost mut passes: Seq<bool> = Seq::empty();
        let ghost mut flags: Seq<bool> = Seq::empty();
        if let Some(s) = self.ports.get(&port) {
            next = s.last_index;
            evicted = s.evicted_through;
            let mut i: usize = 0;
            while i < s.entries.len()
                invariant
                    total(keep),
                    i <= s.entries@.len(),
                    all == s.entries@,
                    passes.len() == i,
                    flags.len() == i,
                    forall|k: int|
                        0 <= k < i ==> #[trigger] flags[k] == (all[k].0 > cut && passes[k]),
                    forall|k: int|
                        0 <= k < i && all[k].0 > cut ==> call_ensures(
                            keep,
                            (&(#[trigger] all[k]).2,),
                            passes[k],
                        ),
                    entry_models(out@) == stored_models(picked(all.take(i as int), flags)),
                decreases s.entries@.len() - i,
            {
                let index: u64 = s.entries[i].0;
                let mut kept: bool = false;
                if index > cut {
                    kept = keep(&s.entries[i].2);
                }
                let ghost before = flags;
                let ghost had = out@;
                proof {
                    passes = passes.push(kept);
                    flags = flags.push(index > cut && kept);
                    lemma_picked_flags(all.take(i as int), before, flags);
                    lemma_picked_step(all, flags, i as int);
                }
                if index > cut && kept {
                    out.push(JournalEntry { index, request: s.entries[i].2.copy() });
                    proof {
                        let p = picked(all.take(i as int), flags);
                        let m = (index, all[i as int].2@);
                        assert(entry_models(out@) =~= entry_models(had).push(m));
                        assert(stored_models(p.push(all[i as int])) =~= stored_models(p).push(m));
                    }
                }
                i += 1;
            }
        }
        proof {
            assert(all.take(all.len() as int) =~= all);
            assert(flags =~= after_cursor(all, cut, passes));
            assert(passes_after(keep, all, cut, passes));
            assert(cut == cut_of(since));
            assert(entry_models(out@) =~= stored_models(
                picked(all, after_cursor(all, cut, passes)),
            ));
        }
        let truncated: bool = match since {
            Some(s) => evicted > s,
            None => false,
        };
        Some(JournalReadSince { entries: out, next, truncated, complete: true })
    }

    fn clear(&mut self, port: u16) -> (r: Result<(), String>)
        ensures
            r is Ok,
            final(self).stored(port).len() == 0,
            final(self).last_index(port) == old(self).last_index(port),
            final(self).evicted_through(port) == old(self).evicted_through(port),
            !final(self).warned(port),
            final(self).notices(port) == old(self).notices(port),
            other_ports_kept(*old(self), *final(self), port),
    {
        let mut s: PortSlot = self.take(port);
        s.entries = VecDeque::new();
        s.count = 0;
        s.cap_warned = false;
        self.put(port, s);
        Ok(())
    }

    fn retain<K: Fn(&RecordedRequest) -> bool>(&mut self, port: u16, keep: K)
        ensures
            final(self).last_index(port) == old(self).last_index(port),
            final(self).evicted_through(port) == old(self).evicted_through(port),
            !final(self).warned(port),
            final(self).notices(port) == old(self).notices(port),
            other_ports_kept(*old(self), *final(self), port),
    {
        let mut s: PortSlot = self.take(port);
        let ghost all = s.entries@;
        let ghost n = all.len();
        let ghost mut flags: Seq<bool> = Seq::empty();
        let mut out: VecDeque<(u64, String, RecordedRequest)> = VecDeque::new();
        let mut i: usize = 0;
        let total_len: usize = s.entries.len();
        while i < total_len
            invariant
                total(keep),
                total_len == all.len(),
                i <= total_len,
                s.entries@ == all.skip(i as int),
                flags.len() == i,
                forall|k: int| 0 <= k < i ==> call_ensures(keep, (&(#[trigger] all[k]).2,), flags[k]),
                out@ == picked(all.take(i as int), flags),
                s.count == old(self).counted(port),
                s.last_index == old(self).last_index(port),
                s.evicted_through == old(self).evicted_through(port),
                s.cap_notices == old(self).notices(port),
            decreases total_len - i,
        {
            let popped = s.entries.pop_front();
            proof {
                assert(all.skip(i as int)[0] == all[i as int]);
                assert(all.skip(i as int).drop_first() =~= all.skip(i + 1));
                assert(s.entries@ =~= all.skip(i + 1));
            }
            if let Some(e) = popped {
                let kept: bool = keep(&e.2);
                let ghost before = flags;
                proof {
                    flags = flags.push(kept);
                    lemma_picked_flags(all.take(i as int), before, flags);
                    lemma_picked_step(all, flags, i as int);
                }
                if kept {
                    out.push_back(e);
                }
            }
            i += 1;
        }
        s.entries = out;
        s.cap_warned = false;
        proof {
            assert(all.take(all.len() as int) =~= all);
            lemma_picked_ordered(all, flags, s.last_index, s.evicted_through);
            lemma_picked_flows(all, flags);
            assert(flags_of(keep, requests_of(flows_of(all)), flags));
        }
        self.put(port, s);
        proof {
            assert(thinned(keep, old(self).retained(port), self.retained(port)));
        }
    }

    fn clear_flow(&mut self, port: u16, flow_id: &str) -> (r: Result<(), String>)
        ensures
            r is Ok,
            final(self).last_index(port) == old(self).last_index(port),
            final(self).evicted_through(port) == old(self).evicted_through(port),
            !final(self).warned(port),
            final(self).notices(port) == old(self).notices(port),
            other_ports_kept(*old(self), *final(self), port),
    {
        let mut s: PortSlot = self.take(port);
        let ghost all = s.entries@;
        let ghost flags = other_flow(flows_of(all), flow_id@);
        let mut out: VecDeque<(u64, String, RecordedRequest)> = VecDeque::new();
        let mut i: usize = 0;
        let total_len: usize = s.entries.len();
        while i < total_len
            invariant
                total_len == all.len(),
                i <= total_len,
                s.entries@ == all.skip(i as int),
                flags == other_flow(flows_of(all), flow_id@),
                out@ == picked(all.take(i as int), flags),
                s.count == old(self).counted(port),
                s.last_index == old(self).last_index(port),
                s.evicted_through == old(self).evicted_through(port),
                s.cap_notices == old(self).notices(port),
            decreases total_len - i,
        {
            let popped = s.entries.pop_front();
            proof {
                assert(all.skip(i as int)[0] == all[i as int]);
                assert(all.skip(i as int).drop_first() =~= all.skip(i + 1));
                assert(s.entries@ =~= all.skip(i + 1));
                lemma_picked_step(all, flags, i as int);
            }
            if let Some(e) = popped {
                if !text::same_text(e.1.as_str(), flow_id) {
                    out.push_back(e);
                }
            }
            i += 1;
        }
        s.entries = out;
        s.cap_warned = false;
        proof {
            assert(all.take(all.len() as int) =~= all);
            lemma_picked_ordered(all, flags, s.last_index, s.evicted_through);
            lemma_picked_flows(all, flags);
        }
        self.put(port, s);
        Ok(())
    }

    fn count(&self, port: u16) -> (r: u64) {
        match self.ports.get(&port) {
            Some(s) => s.count,
            None => 0,
        }
    }

    fn attach_match(&mut self, port: u16, index: u64, outcome: MatchOutcome)
        ensures
            noted(
                old(self).stored(port),
                final(self).stored(port),
                index,
                |r: RecordedRequest| RecordedRequest { match_outcome: Some(outcome), ..r },
            ),
            final(self).last_index(port) == old(self).last_index(port),
            final(self).evicted_through(port) == old(self).evicted_through(port),
            final(self).warned(port) == old(self).warned(port),
            final(self).notices(port) == old(self).notices(port),
            other_ports_kept(*old(self), *final(self), port),
    {
        let mut s: PortSlot = self.take(port);
        s.attach_match(index, outcome);
        self.put(port, s);
    }

    fn attach_response(&mut self, port: u16, index: u64, status: u16, latency_ms: u64)
        ensures
            noted(
                old(self).stored(port),
                final(self).stored(port),
                index,
                |r: RecordedRequest|
                    RecordedRequest { status: Some(status), latency_ms: Some(latency_ms), ..r },
            ),
            final(self).last_index(port) == old(self).last_index(port),
            final(self).evicted_through(port) == old(self).evicted_through(port),
            final(self).warned(port) == old(self).warned(port),
            final(self).notices(port) == old(self).notices(port),
            other_ports_kept(*old(self), *final(self), port),
    {
        let mut s: PortSlot = self.take(port);
        s.attach_response(index, status, latency_ms);
        self.put(port, s);
    }
}

/// Indices of a port grow strictly in the order of recording, none lies past the last one given
/// out, and what left to make room lies below all that is kept.
pub proof fn law_indices_are_ordered(j: LocalJournal, port: u16)
    requires
        j.wf(),
    ensures
        ordered(j.stored(port), j.last_index(port), j.evicted_through(port)),
{
}

/// A cursor neither skips nor repeats: what a record adds is all that lies past the last index that
/// was given out, and whatever lay past an earlier cursor is still there, unless a read from that
/// cursor says that it is truncated.
pub proof fn law_a_cursor_neither_skips_nor_repeats(
    before: LocalJournal,
    after: LocalJournal,
    port: u16,
    flow_id: Seq<char>,
    req: RecordModel,
    cursor: u64,
)
    requires
        before.wf(),
        after.wf(),
        LocalJournal::recorded(before, after, port, flow_id, req),
    ensures
        forall|i: int|
            0 <= i < after.stored(port).len() ==> ((#[trigger] after.stored(port)[i]).0
                > before.last_index(port) <==> i == after.stored(port).len() - 1),
        after.evicted_through(port) <= cursor ==> forall|k: int|
            0 <= k < before.stored(port).len() && (#[trigger] before.stored(port)[k]).0 > cursor
                ==> after.stored(port).contains(before.stored(port)[k]),
{
    law_indices_are_ordered(before, port);
    law_indices_are_ordered(after, port);
    let old_entries = before.stored(port);
    let new_entries = after.stored(port);
    let newest = new_entries.last();
    let shift: int = if old_entries.len() >= MAX_RECORDED_REQUESTS {
        1
    } else {
        0
    };
    assert forall|k: int| shift <= k < old_entries.len() implies #[trigger] old_entries[k]
        == new_entries[k - shift] by {}
    assert forall|i: int| 0 <= i < new_entries.len() implies ((#[trigger] new_entries[i]).0
        > before.last_index(port) <==> i == new_entries.len() - 1) by {
        if i < new_entries.len() - 1 {
            assert(old_entries[i + shift] == new_entries[i]);
        }
    }
    if after.evicted_through(port) <= cursor {
        assert forall|k: int|
            0 <= k < old_entries.len() && (#[trigger] old_entries[k]).0
                > cursor implies new_entries.contains(old_entries[k]) by {
            assert(old_entries[k] == new_entries[k - shift]);
        }
    }
}

/// No two entries share an index, so an annotation lands on one entry at most.
pub proof fn law_an_index_names_one_entry(j: LocalJournal, port: u16, a: int, b: int)
    requires
        j.wf(),
        0 <= a < j.stored(port).len(),
        0 <= b < j.stored(port).len(),
        j.stored(port)[a].0 == j.stored(port)[b].0,
    ensures
        a == b,
{
    law_indices_are_ordered(j, port);
    if a < b {
        assert(j.stored(port)[a].0 < j.stored(port)[b].0);
    } else if b < a {
        assert(j.stored(port)[b].0 < j.stored(port)[a].0);
    }
}

/// Clearing one flow leaves the other flows' entries as they are, in order, and none of its own.
pub proof fn law_clearing_a_flow_keeps_the_others(
    entries: Seq<(String, RecordedRequest)>,
    flow_id: Seq<char>,
)
    ensures
        forall|i: int|
            0 <= i < picked(entries, other_flow(entries, flow_id)).len() ==> (#[trigger] picked(
                entries,
                other_flow(entries, flow_id),
            )[i]).0@ != flow_id,
        forall|k: int|
            0 <= k < entries.len() && (#[trigger] entries[k]).0@ != flow_id ==> picked(
                entries,
                other_flow(entries, flow_id),
            ).contains(entries[k]),
    decreases entries.len(),
{
    if entries.len() > 0 {
        let rest = entries.drop_last();
        let flags = other_flow(entries, flow_id);
        law_clearing_a_flow_keeps_the_others(rest, flow_id);
        lemma_picked_flags(rest, flags, other_flow(rest, flow_id));
        let had = picked(rest, flags);
        let got = picked(entries, flags);
        assert forall|k: int| 0 <= k < entries.len() && (
        #[trigger] entries[k]).0@ != flow_id implies got.contains(entries[k]) by {
            if k < rest.len() {
                assert(rest[k] == entries[k]);
                let w = choose|w: int| 0 <= w < had.len() && had[w] == rest[k];
                assert(had.contains(rest[k]));
                assert(got[w] == entries[k]);
            } else {
                assert(got[got.len() - 1] == entries[k]);
            }
        }
    }
}

/// Picking takes exactly the items whose flag is set, in their order: what is picked of two lists
/// together is what is picked of each, and of one item it is that item where its flag is set.
pub proof fn law_flagged_items_are_picked<T>(
    a: Seq<T>,
    b: Seq<T>,
    fa: Seq<bool>,
    fb: Seq<bool>,
    x: T,
    f: bool,
)
    requires
        fa.len() == a.len(),
        fb.len() == b.len(),
    ensures
        picked(a + b, fa + fb) == picked(a, fa) + picked(b, fb),
        picked(seq![x], seq![f]) == (if f {
            seq![x]
        } else {
            Seq::<T>::empty()
        }),
    decreases b.len(),
{
    let one = seq![x];
    assert(one.drop_last() =~= Seq::<T>::empty());
    assert(picked(one.drop_last(), seq![f]) =~= Seq::<T>::empty());
    assert(picked(one, seq![f]) =~= (if f {
        seq![x]
    } else {
        Seq::<T>::empty()
    }));
    if b.len() == 0 {
        assert(a + b =~= a);
        assert(fa + fb =~= fa);
        assert(picked(a, fa) + picked(b, fb) =~= picked(a, fa));
    } else {
        law_flagged_items_are_picked(a, b.drop_last(), fa, fb.drop_last(), x, f);
        assert((a + b).drop_last() =~= a + b.drop_last());
        assert((a + b).last() == b.last());
        assert((fa + fb)[(a + b).len() - 1] == fb[b.len() - 1]);
        lemma_picked_flags(a + b.drop_last(), fa + fb, fa + fb.drop_last());
        lemma_picked_flags(b.drop_last(), fb, fb.drop_last());
        assert(picked(a + b, fa + fb) =~= picked(a, fa) + picked(b, fb));
    }
}

proof fn lemma_picked_has<T>(s: Seq<T>, flags: Seq<bool>, i: int)
    requires
        0 <= i < s.len(),
        flags[i],
    ensures
        picked(s, flags).contains(s[i]),
    decreases s.len(),
{
    let rest = s.drop_last();
    let had = picked(rest, flags);
    let got = picked(s, flags);
    if i < s.len() - 1 {
        lemma_picked_has(rest, flags, i);
        let k = choose|k: int| 0 <= k < had.len() && had[k] == rest[i];
        assert(got[k] == s[i]);
    } else {
        assert(got[had.len() as int] == s[i]);
    }
}

proof fn lemma_picked_from<T>(s: Seq<T>, flags: Seq<bool>, k: int) -> (i: int)
    requires
        0 <= k < picked(s, flags).len(),
    ensures
        0 <= i < s.len(),
        flags[i],
        s[i] == picked(s, flags)[k],
    decreases s.len(),
{
    let rest = s.drop_last();
    if k < picked(rest, flags).len() {
        let i = lemma_picked_from(rest, flags, k);
        i
    } else {
        s.len() - 1
    }
}

/// A filtered list holds every request that cannot but pass the test, and none that cannot pass it.
pub proof fn law_filters_keep_what_passes<K: Fn(&RecordedRequest) -> bool>(
    keep: K,
    all: Seq<RecordedRequest>,
    kept: Seq<RecordedRequest>,
    i: int,
    k: int,
)
    requires
        filtered(keep, all, kept),
    ensures
        0 <= i < all.len() && !call_ensures(keep, (&all[i],), false) ==> models(kept).contains(
            all[i]@,
        ),
        0 <= k < kept.len() ==> exists|j: int|
            0 <= j < all.len() && (#[trigger] all[j])@ == kept[k]@ && call_ensures(
                keep,
                (&all[j],),
                true,
            ),
        kept.len() <= all.len(),
{
    let flags = choose|flags: Seq<bool>| #[trigger]
        flags_of(keep, all, flags) && models(kept) == models(picked(all, flags));
    let got = picked(all, flags);
    lemma_picked_length(all, flags);
    assert(models(kept).len() == models(got).len());
    if 0 <= i < all.len() && !call_ensures(keep, (&all[i],), false) {
        assert(call_ensures(keep, (&all[i],), flags[i]));
        lemma_picked_has(all, flags, i);
        let n = choose|n: int| 0 <= n < got.len() && got[n] == all[i];
        assert(models(got)[n] == all[i]@);
        assert(models(kept)[n] == all[i]@);
    }
    if 0 <= k < kept.len() {
        assert(models(kept)[k] == kept[k]@);
        assert(models(got)[k] == got[k]@);
        let j = lemma_picked_from(all, flags, k);
        assert(call_ensures(keep, (&all[j],), flags[j]));
    }
}

proof fn lemma_picked_length<T>(s: Seq<T>, flags: Seq<bool>)
    ensures
        picked(s, flags).len() <= s.len(),
    decreases s.len(),
{
    if s.len() > 0 {
        lemma_picked_length(s.drop_last(), flags);
    }
}

/// A read from a cursor holds, each with its index, every request past the cursor that cannot but
/// pass the test, and none at or before the cursor. Without a cursor it starts before everything.
pub proof fn law_reads_start_behind_the_cursor<K: Fn(&RecordedRequest) -> bool>(
    keep: K,
    entries: Seq<(u64, String, RecordedRequest)>,
    since: Option<u64>,
    got: Seq<JournalEntry>,
    i: int,
    k: int,
)
    requires
        read_after(keep, entries, cut_of(since), got),
        forall|j: int| 0 <= j < entries.len() ==> (#[trigger] entries[j]).0 > 0,
    ensures
        0 <= i < entries.len() && (since is None || entries[i].0 > since->0) && !call_ensures(
            keep,
            (&entries[i].2,),
            false,
        ) ==> entry_models(got).contains((entries[i].0, entries[i].2@)),
        0 <= k < got.len() ==> (since matches Some(cursor) ==> got[k].index > cursor) && exists|
            j: int,
        |
            0 <= j < entries.len() && (#[trigger] entries[j]).0 == got[k].index && entries[j].2@
                == got[k].request@ && call_ensures(keep, (&entries[j].2,), true),
{
    let cut = cut_of(since);
    let passes = choose|passes: Seq<bool>| #[trigger]
        passes_after(keep, entries, cut, passes) && entry_models(got) == stored_models(
            picked(entries, after_cursor(entries, cut, passes)),
        );
    let flags = after_cursor(entries, cut, passes);
    let some = picked(entries, flags);
    assert(entry_models(got).len() == stored_models(some).len());
    if 0 <= i < entries.len() && (since is None || entries[i].0 > since->0) && !call_ensures(
        keep,
        (&entries[i].2,),
        false,
    ) {
        assert(entries[i].0 > cut);
        assert(call_ensures(keep, (&entries[i].2,), passes[i]));
        lemma_picked_has(entries, flags, i);
        let n = choose|n: int| 0 <= n < some.len() && some[n] == entries[i];
        assert(stored_models(some)[n] == (entries[i].0, entries[i].2@));
        assert(entry_models(got)[n] == (entries[i].0, entries[i].2@));
    }
    if 0 <= k < got.len() {
        assert(entry_models(got)[k] == (got[k].index, got[k].request@));
        assert(stored_models(some)[k] == (some[k].0, some[k].2@));
        let j = lemma_picked_from(entries, flags, k);
        assert(call_ensures(keep, (&entries[j].2,), passes[j]));
    }
}

/// A recorded request stands last, under its flow and the index after the last one given out. Every
/// other request stays in its order, but for the oldest of a port that was full; and no other port
/// is touched.
pub proof fn law_a_record_adds_one_request(
    before: LocalJournal,
    after: LocalJournal,
    port: u16,
    other: u16,
    flow_id: Seq<char>,
    req: RecordModel,
)
    requires
        LocalJournal::recorded(before, after, port, flow_id, req),
        other != port,
    ensures
        ({
            let had = before.stored(port);
            let got = after.stored(port);
            let n = got.len() as int;
            &&& n > 0 && got[n - 1].2@ == req && got[n - 1].1@ == flow_id
            &&& got[n - 1].0 == before.last_index(port) + 1
            &&& after.last_index(port) == before.last_index(port) + 1
            &&& had.len() < 10000 ==> n == had.len() + 1 && forall|i: int|
                0 <= i < had.len() ==> #[trigger] got[i] == had[i]
            &&& had.len() == 10000 ==> n == had.len() && after.evicted_through(port) == had[0].0
                && forall|i: int| 0 <= i < n - 1 ==> #[trigger] got[i] == had[i + 1]
            &&& had.len() < 10000 ==> after.evicted_through(port) == before.evicted_through(port)
            &&& after.stored(other) == before.stored(other)
            &&& after.last_index(other) == before.last_index(other)
        }),
{
    assert(after.stored(other) == before.stored(other));
}

/// A note goes to the request under the index alone, and every entry keeps its place, its index and
/// its flow.
pub proof fn law_notes_go_to_one_request(
    before: Seq<(u64, String, RecordedRequest)>,
    after: Seq<(u64, String, RecordedRequest)>,
    index: u64,
    note: spec_fn(RecordedRequest) -> RecordedRequest,
    i: int,
)
    requires
        noted(before, after, index, note),
        0 <= i < before.len(),
    ensures
        after.len() == before.len(),
        after[i].0 == before[i].0,
        after[i].1 == before[i].1,
        before[i].0 != index ==> after[i] == before[i],
        before[i].0 == index ==> after[i].2 == note(before[i].2),
{
    assert(after[i].0 == before[i].0);
}

/// What is done on one port leaves every other port as it was: what it holds, what it counted and
/// the indices it gave out.
pub proof fn law_other_ports_are_left_alone(a: LocalJournal, b: LocalJournal, port: u16, other: u16)
    requires
        other_ports_kept(a, b, port),
        other != port,
    ensures
        b.stored(other) == a.stored(other),
        b.retained(other) == a.retained(other),
        b.counted(other) == a.counted(other),
        b.last_index(other) == a.last_index(other),
        b.evicted_through(other) == a.evicted_through(other),
        b.warned(other) == a.warned(other),
        b.notices(other) == a.notices(other),
{
    assert(b.stored(other) == a.stored(other));
}

/// A port never holds more than its ceiling, its indices grow strictly from one entry to the next,
/// none lies past the last one given out, and all that was evicted lies before all that is kept.
pub proof fn law_kept_indices_grow(j: LocalJournal, port: u16, i: int, k: int)
    requires
        j.wf(),
        0 <= i < k < j.stored(port).len(),
    ensures
        j.stored(port).len() <= 10000,
        j.stored(port)[i].0 < j.stored(port)[k].0,
        j.stored(port)[k].0 <= j.last_index(port),
        j.evicted_through(port) < j.stored(port)[i].0,
{
    law_indices_are_ordered(j, port);
    assert(j.stored(port)[i].0 < j.stored(port)[k].0);
}

/// What is retained of a port are its entries' flows and requests, in order, and a thinned port
/// retains every entry that cannot but pass the test and none that cannot pass it.
pub proof fn law_thinning_keeps_what_passes<K: Fn(&RecordedRequest) -> bool>(
    keep: K,
    before: Seq<(String, RecordedRequest)>,
    after: Seq<(String, RecordedRequest)>,
    i: int,
    k: int,
)
    requires
        thinned(keep, before, after),
    ensures
        0 <= i < before.len() && !call_ensures(keep, (&before[i].1,), false) ==> after.contains(
            before[i],
        ),
        0 <= k < after.len() ==> exists|j: int|
            0 <= j < before.len() && (#[trigger] before[j]) == after[k] && call_ensures(
                keep,
                (&before[j].1,),
                true,
            ),
{
    let flags = choose|flags: Seq<bool>| #[trigger]
        flags_of(keep, requests_of(before), flags) && after == picked(before, flags);
    let requests = requests_of(before);
    if 0 <= i < before.len() && !call_ensures(keep, (&before[i].1,), false) {
        assert(requests[i] == before[i].1);
        assert(call_ensures(keep, (&requests[i],), flags[i]));
        lemma_picked_has(before, flags, i);
    }
    if 0 <= k < after.len() {
        let j = lemma_picked_from(before, flags, k);
        assert(requests[j] == before[j].1);
        assert(call_ensures(keep, (&requests[j],), flags[j]));
    }
}

} // verus!
