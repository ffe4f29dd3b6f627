//! State kept per flow: JSON values under a flow id and a key.

use crate::json;
use crate::json::{Json, JsonModel};
use crate::text;
use vstd::prelude::*;

verus! {

/// What a flow store holds, as contracts see it.
pub type Contents = Map<(Seq<char>, Seq<char>), JsonModel>;

/// The value under a flow and a key.
pub open spec fn held(c: Contents, flow_id: Seq<char>, key: Seq<char>) -> Option<JsonModel> {
    if c.dom().contains((flow_id, key)) {
        Some(c[(flow_id, key)])
    } else {
        None
    }
}

/// An optional value as contracts see it.
pub open spec fn optional_model(v: Option<Json>) -> Option<JsonModel> {
    match v {
        Some(j) => Some(j.model()),
        None => None,
    }
}

/// An optional value as contracts see it.
pub open spec fn optional_model_ref(v: Option<&Json>) -> Option<JsonModel> {
    match v {
        Some(j) => Some(j.model()),
        None => None,
    }
}

/// Whether what is held is what was expected: both absent, or equal as JSON.
pub open spec fn as_expected(held: Option<JsonModel>, expected: Option<JsonModel>) -> bool {
    match (held, expected) {
        (Some(a), Some(b)) => json::json_same(a, b),
        (None, None) => true,
        _ => false,
    }
}

/// Nothing but one entry may differ.
pub open spec fn others_kept(a: Contents, b: Contents, flow_id: Seq<char>, key: Seq<char>) -> bool {
    forall|f: Seq<char>, k: Seq<char>|
        (f, k) != (flow_id, key) ==> #[trigger] held(b, f, k) == held(a, f, k)
}

/// What a conditional write came to.
#[derive(Debug)]
pub enum CasOutcome {
    Applied,
    /// What is held is not what was expected.
    Conflict(Option<Json>),
}

/// A store of flow state. A store that discards writes says so by not keeping them.
pub trait FlowStore: Sized {
    /// What the store holds.
    closed spec fn contents(&self) -> Contents {
        arbitrary()
    }

    /// Whether the store keeps what is written to it.
    closed spec fn keeps(&self) -> bool {
        arbitrary()
    }

    /// Whether no call of the store fails for reasons of its own.
    closed spec fn reliable(&self) -> bool {
        arbitrary()
    }

    /// Whether calls may block the caller.
    closed spec fn blocking(&self) -> bool {
        arbitrary()
    }

    /// Whether calls may block the caller.
    fn is_blocking(&self) -> (r: bool)
        ensures
            r == self.blocking(),
    ;

    /// The value under a flow and a key.
    fn get(&self, flow_id: &str, key: &str) -> (r: Result<Option<Json>, String>)
        ensures
            r is Ok ==> optional_model(r->Ok_0) == held(self.contents(), flow_id@, key@),
            self.reliable() ==> r is Ok,
    ;

    /// Writes a value. A write that failed leaves every other entry as it was.
    fn set(&mut self, flow_id: &str, key: &str, value: Json) -> (r: Result<(), String>)
        ensures
            final(self).keeps() == old(self).keeps(),
            final(self).reliable() == old(self).reliable(),
            old(self).reliable() ==> r is Ok,
            others_kept(old(self).contents(), final(self).contents(), flow_id@, key@),
            r is Ok && old(self).keeps() ==> held(final(self).contents(), flow_id@, key@) == Some(
                value.model(),
            ),
            !old(self).keeps() ==> final(self).contents() == old(self).contents(),
    ;

    /// Removes a value.
    fn delete(&mut self, flow_id: &str, key: &str) -> (r: Result<(), String>)
        ensures
            final(self).keeps() == old(self).keeps(),
            final(self).reliable() == old(self).reliable(),
            old(self).reliable() ==> r is Ok,
            others_kept(old(self).contents(), final(self).contents(), flow_id@, key@),
            r is Ok && old(self).keeps() ==> held(final(self).contents(), flow_id@, key@) is None,
            !old(self).keeps() ==> final(self).contents() == old(self).contents(),
    ;

    /// Writes a value where what is held is what was expected, in one step.
    fn compare_and_set(
        &mut self,
        flow_id: &str,
        key: &str,
        expected: Option<&Json>,
        new: Json,
    ) -> (r: Result<CasOutcome, String>)
        ensures
            final(self).keeps() == old(self).keeps(),
            final(self).reliable() == old(self).reliable(),
            old(self).reliable() ==> r is Ok,
            others_kept(old(self).contents(), final(self).contents(), flow_id@, key@),
            !old(self).keeps() ==> final(self).contents() == old(self).contents(),
            r matches Ok(CasOutcome::Applied) ==> {
                &&& as_expected(
                    held(old(self).contents(), flow_id@, key@),
                    optional_model_ref(expected),
                )
                &&& old(self).keeps() ==> held(final(self).contents(), flow_id@, key@) == Some(
                    new.model(),
                )
            },
            r matches Ok(CasOutcome::Conflict(current)) ==> {
                &&& !as_expected(
                    held(old(self).contents(), flow_id@, key@),
                    optional_model_ref(expected),
                )
                &&& optional_model(current) == held(old(self).contents(), flow_id@, key@)
                &&& final(self).contents() == old(self).contents()
            },
    ;

    /// Removes every value of a flow.
    fn clear_flow(&mut self, flow_id: &str) -> (r: Result<(), String>)
        ensures
            final(self).keeps() == old(self).keeps(),
            final(self).reliable() == old(self).reliable(),
            old(self).reliable() ==> r is Ok,
            forall|f: Seq<char>, k: Seq<char>|
                f != flow_id@ ==> #[trigger] held(final(self).contents(), f, k) == held(
                    old(self).contents(),
                    f,
                    k,
                ),
            r is Ok && old(self).keeps() ==> forall|k: Seq<char>|
                #[trigger] held(final(self).contents(), flow_id@, k) is None,
            !old(self).keeps() ==> final(self).contents() == old(self).contents(),
    ;

    /// Adds one to a counter, which starts at zero, and says what it came to.
    fn increment(&mut self, flow_id: &str, key: &str) -> (r: Result<u64, String>)
        ensures
            final(self).reliable() == old(self).reliable(),
            final(self).keeps() == old(self).keeps(),
            others_kept(old(self).contents(), final(self).contents(), flow_id@, key@),
            !old(self).keeps() ==> final(self).contents() == old(self).contents(),
            r matches Ok(n) ==> {
                &&& n >= 1
                &&& held(old(self).contents(), flow_id@, key@) == (if n == 1 && held(
                    old(self).contents(),
                    flow_id@,
                    key@,
                ) is None {
                    None::<JsonModel>
                } else {
                    Some(JsonModel::Number(text::decimal((n - 1) as nat)))
                })
                &&& old(self).keeps() ==> held(final(self).contents(), flow_id@, key@) == Some(
                    JsonModel::Number(text::decimal(n as nat)),
                )
            },
    ;
}

/// The list of entries as a map.
pub open spec fn listed(entries: Seq<(String, String, Json)>) -> Contents
    decreases entries.len(),
{
    if entries.len() == 0 {
        Map::empty()
    } else {
        let e = entries.last();
        listed(entries.drop_last()).insert((e.0@, e.1@), e.2.model())
    }
}

/// The store an imposter keeps for itself: nothing at all, or a list in memory.
pub enum LocalFlowStore {
    /// Discards what is written.
    NoOp,
    /// Keeps what is written until it is removed.
    InMemory(MemoryFlowStore),
}

/// Flow state in memory. No flow and key stand twice.
///
/// The lifetime that values were configured with is kept with them, for whoever has a clock to
/// remove what is past it.
pub struct MemoryFlowStore {
    entries: Vec<(String, String, Json)>,
    ttl_seconds: u64,
}

impl MemoryFlowStore {
    /// No flow and key stand twice.
    #[verifier::type_invariant]
    spec fn distinct(self) -> bool {
        distinct_entries(self.entries@)
    }

    /// What the store holds.
    pub closed spec fn view(&self) -> Contents {
        listed(self.entries@)
    }

    /// How many seconds a value is meant to live.
    pub closed spec fn lifetime(&self) -> u64 {
        self.ttl_seconds
    }

    /// An empty store of values with a lifetime.
    pub fn new(ttl_seconds: u64) -> (r: Self)
        ensures
            r@ == Map::<(Seq<char>, Seq<char>), JsonModel>::empty(),
            r.lifetime() == ttl_seconds,
    {
        MemoryFlowStore { entries: Vec::new(), ttl_seconds }
    }

    /// How many seconds a value is meant to live.
    pub fn ttl_seconds(&self) -> (r: u64)
        ensures
            r == self.lifetime(),
    {
        self.ttl_seconds
    }

    fn position(&self, flow_id: &str, key: &str) -> (r: Option<usize>)
        ensures
            (match r {
                Some(i) => i < self.entries@.len() && self.entries@[i as int].0@ == flow_id@
                    && self.entries@[i as int].1@ == key@ && held(self@, flow_id@, key@) == Some(
                    self.entries@[i as int].2.model(),
                ),
                None => held(self@, flow_id@, key@) is None && forall|i: int|
                    0 <= i < self.entries@.len() ==> ((#[trigger] self.entries@[i]).0@,
                        self.entries@[i].1@) != (flow_id@, key@),
            }),
    {
        proof {
            use_type_invariant(self);
        }
        let mut i: usize = 0;
        while i < self.entries.len()
            invariant
                i <= self.entries@.len(),
                distinct_entries(self.entries@),
                forall|k: int|
                    0 <= k < i ==> ((#[trigger] self.entries@[k]).0@, self.entries@[k].1@) != (
                        flow_id@,
                        key@,
                    ),
            decreases self.entries@.len() - i,
        {
            if text::same_text(self.entries[i].0.as_str(), flow_id) && text::same_text(
                self.entries[i].1.as_str(),
                key,
            ) {
                proof {
                    lemma_listed_at(self.entries@, i as int);
                }
                return Some(i);
            }
            i += 1;
        }
        proof {
            lemma_listed_none(self.entries@, flow_id@, key@);
        }
        None
    }

    /// The value under a flow and a key.
    pub fn get(&self, flow_id: &str, key: &str) -> (r: Option<Json>)
        ensures
            optional_model(r) == held(self@, flow_id@, key@),
    {
        match self.position(flow_id, key) {
            Some(i) => Some(self.entries[i].2.copy()),
            None => None,
        }
    }

    /// Writes a value.
    pub fn set(&mut self, flow_id: &str, key: &str, value: Json)
        ensures
            final(self)@ == old(self)@.insert((flow_id@, key@), value.model()),
            final(self).lifetime() == old(self).lifetime(),
    {
        self.delete(flow_id, key);
        proof {
            use_type_invariant(&*self);
            assert(held(self@, flow_id@, key@) is None);
        }
        let ghost before = self.entries@;
        let mut entries: Vec<(String, String, Json)> = Vec::new();
        std::mem::swap(&mut entries, &mut self.entries);
        entries.push((flow_id.to_owned(), key.to_owned(), value));
        proof {
            assert(entries@.drop_last() =~= before);
            assert forall|i: int, j: int| 0 <= i < j < entries@.len() implies ((
            #[trigger] entries@[i]).0@, entries@[i].1@) != ((#[trigger] entries@[j]).0@,
                entries@[j].1@) by {
                if j == before.len() {
                    lemma_listed_at(before, i);
                } else {
                    assert(entries@[i] == before[i]);
                    assert(entries@[j] == before[j]);
                }
            }
            assert(old(self)@.remove((flow_id@, key@)).insert((flow_id@, key@), value.model())
                =~= old(self)@.insert((flow_id@, key@), value.model()));
        }
        self.entries = entries;
    }

    /// Removes a value.
    pub fn delete(&mut self, flow_id: &str, key: &str)
        ensures
            final(self)@ == old(self)@.remove((flow_id@, key@)),
            final(self).lifetime() == old(self).lifetime(),
    {
        proof {
            use_type_invariant(&*self);
        }
        match self.position(flow_id, key) {
            Some(i) => {
                let ghost before = self.entries@;
                let mut entries: Vec<(String, String, Json)> = Vec::new();
                std::mem::swap(&mut entries, &mut self.entries);
                let removed = entries.remove(i);
                proof {
                    assert(entries@ =~= before.remove(i as int));
                    lemma_distinct_removed(before, i as int);
                    lemma_listed_removed(before, i as int);
                }
                self.entries = entries;
            },
            None => {
                proof {
                    assert(self@.remove((flow_id@, key@)) =~= self@);
                }
            },
        }
    }

    /// Removes every value of a flow.
    pub fn clear_flow(&mut self, flow_id: &str)
        ensures
            final(self).lifetime() == old(self).lifetime(),
            forall|f: Seq<char>, k: Seq<char>| #[trigger]
                held(final(self)@, f, k) == (if f == flow_id@ {
                    None
                } else {
                    held(old(self)@, f, k)
                }),
    {
        proof {
            use_type_invariant(&*self);
        }
        let ghost before = self.entries@;
        let mut entries: Vec<(String, String, Json)> = Vec::new();
        std::mem::swap(&mut entries, &mut self.entries);
        let mut i: usize = 0;
        while i < entries.len()
            invariant
                i <= entries@.len(),
                distinct_entries(entries@),
                forall|k: int| 0 <= k < i ==> (#[trigger] entries@[k]).0@ != flow_id@,
                forall|f: Seq<char>, k: Seq<char>| #[trigger]
                    held(listed(entries@), f, k) == held(listed(before), f, k) || (f == flow_id@
                        && held(listed(entries@), f, k) is None),
            decreases entries@.len() - i,
        {
            if text::same_text(entries[i].0.as_str(), flow_id) {
                let ghost was = entries@;
                let removed = entries.remove(i);
                proof {
                    assert(entries@ =~= was.remove(i as int));
                    lemma_distinct_removed(was, i as int);
                    lemma_listed_removed(was, i as int);
                    assert forall|f: Seq<char>, k: Seq<char>| #[trigger]
                        held(listed(entries@), f, k) == held(listed(before), f, k) || (f == flow_id@
                            && held(listed(entries@), f, k) is None) by {
                        let earlier = held(listed(was), f, k);
                    }
                }
            } else {
                i += 1;
            }
        }
        proof {
            assert forall|k: Seq<char>| #[trigger]
                held(listed(entries@), flow_id@, k) is None by {
                lemma_listed_none(entries@, flow_id@, k);
            }
        }
        self.entries = entries;
    }
}

/// No flow and key stand twice.
pub open spec fn distinct_entries(entries: Seq<(String, String, Json)>) -> bool {
    forall|i: int, j: int|
        0 <= i < j < entries.len() ==> ((#[trigger] entries[i]).0@, entries[i].1@) != ((
        #[trigger] entries[j]).0@, entries[j].1@)
}

proof fn lemma_listed_at(entries: Seq<(String, String, Json)>, i: int)
    requires
        distinct_entries(entries),
        0 <= i < entries.len(),
    ensures
        held(listed(entries), entries[i].0@, entries[i].1@) == Some(entries[i].2.model()),
    decreases entries.len(),
{
    if i < entries.len() - 1 {
        let rest = entries.drop_last();
        lemma_listed_at(rest, i);
        assert((entries[i].0@, entries[i].1@) != (entries.last().0@, entries.last().1@));
    }
}

proof fn lemma_listed_none(entries: Seq<(String, String, Json)>, flow_id: Seq<char>, key: Seq<char>)
    requires
        forall|i: int|
            0 <= i < entries.len() ==> ((#[trigger] entries[i]).0@, entries[i].1@) != (flow_id, key),
    ensures
        held(listed(entries), flow_id, key) is None,
    decreases entries.len(),
{
    if entries.len() > 0 {
        let rest = entries.drop_last();
        assert forall|i: int| 0 <= i < rest.len() implies ((#[trigger] rest[i]).0@, rest[i].1@) != (
            flow_id,
            key,
        ) by {
            assert(rest[i] == entries[i]);
        }
        lemma_listed_none(rest, flow_id, key);
        assert((entries.last().0@, entries.last().1@) != (flow_id, key));
    }
}

proof fn lemma_distinct_removed(entries: Seq<(String, String, Json)>, at: int)
    requires
        distinct_entries(entries),
        0 <= at < entries.len(),
    ensures
        distinct_entries(entries.remove(at)),
{
    let next = entries.remove(at);
    assert forall|i: int, j: int| 0 <= i < j < next.len() implies ((#[trigger] next[i]).0@,
        next[i].1@) != ((#[trigger] next[j]).0@, next[j].1@) by {
        let p = if i < at {
            i
        } else {
            i + 1
        };
        let q = if j < at {
            j
        } else {
            j + 1
        };
        assert(next[i] == entries[p]);
        assert(next[j] == entries[q]);
    }
}

proof fn lemma_listed_removed(entries: Seq<(String, String, Json)>, at: int)
    requires
        distinct_entries(entries),
        0 <= at < entries.len(),
    ensures
        listed(entries.remove(at)) == listed(entries).remove((entries[at].0@, entries[at].1@)),
    decreases entries.len(),
{
    let gone = (entries[at].0@, entries[at].1@);
    if at == entries.len() - 1 {
        assert(entries.remove(at) =~= entries.drop_last());
        lemma_listed_none_but_last(entries);
        assert(listed(entries).remove(gone) =~= listed(entries.drop_last()));
    } else {
        let rest = entries.drop_last();
        assert(rest[at] == entries[at]);
        lemma_listed_removed(rest, at);
        let next = entries.remove(at);
        assert(next.drop_last() =~= rest.remove(at));
        assert(next.last() == entries.last());
        let e = entries.last();
        assert((e.0@, e.1@) != gone);
        assert(listed(entries).remove(gone) =~= listed(rest).remove(gone).insert(
            (e.0@, e.1@),
            e.2.model(),
        ));
    }
}

proof fn lemma_listed_none_but_last(entries: Seq<(String, String, Json)>)
    requires
        distinct_entries(entries),
        entries.len() > 0,
    ensures
        !listed(entries.drop_last()).dom().contains((entries.last().0@, entries.last().1@)),
{
    let rest = entries.drop_last();
    assert forall|i: int| 0 <= i < rest.len() implies ((#[trigger] rest[i]).0@, rest[i].1@) != (
        entries.last().0@,
        entries.last().1@,
    ) by {
        assert(rest[i] == entries[i]);
    }
    lemma_listed_none(rest, entries.last().0@, entries.last().1@);
}

fn expected_matches(held: &Option<Json>, expected: Option<&Json>) -> (r: bool)
    ensures
        r == as_expected(optional_model(*held), optional_model_ref(expected)),
{
    match (held, expected) {
        (Some(a), Some(b)) => a.same(b),
        (None, None) => true,
        _ => false,
    }
}

impl FlowStore for LocalFlowStore {
    open spec fn contents(&self) -> Contents {
        match self {
            LocalFlowStore::NoOp => Map::empty(),
            LocalFlowStore::InMemory(m) => m@,
        }
    }

    open spec fn keeps(&self) -> bool {
        self is InMemory
    }

    open spec fn reliable(&self) -> bool {
        true
    }

    open spec fn blocking(&self) -> bool {
        false
    }

    fn is_blocking(&self) -> (r: bool) {
        false
    }

    fn get(&self, flow_id: &str, key: &str) -> (r: Result<Option<Json>, String>) {
        match self {
            LocalFlowStore::NoOp => Ok(None),
            LocalFlowStore::InMemory(m) => Ok(m.get(flow_id, key)),
        }
    }

    fn set(&mut self, flow_id: &str, key: &str, value: Json) -> (r: Result<(), String>) {
        match self {
            LocalFlowStore::NoOp => {},
            LocalFlowStore::InMemory(m) => {
                m.set(flow_id, key, value);
            },
        }
        Ok(())
    }

    fn delete(&mut self, flow_id: &str, key: &str) -> (r: Result<(), String>) {
        match self {
            LocalFlowStore::NoOp => {},
            LocalFlowStore::InMemory(m) => {
                m.delete(flow_id, key);
            },
        }
        Ok(())
    }

    fn compare_and_set(
        &mut self,
        flow_id: &str,
        key: &str,
        expected: Option<&Json>,
        new: Json,
    ) -> (r: Result<CasOutcome, String>) {
        match self {
            LocalFlowStore::NoOp => if expected.is_none() {
                Ok(CasOutcome::Applied)
            } else {
                Ok(CasOutcome::Conflict(None))
            },
            LocalFlowStore::InMemory(m) => {
                let current: Option<Json> = m.get(flow_id, key);
                if expected_matches(&current, expected) {
                    m.set(flow_id, key, new);
                    Ok(CasOutcome::Applied)
                } else {
                    Ok(CasOutcome::Conflict(current))
                }
            },
        }
    }

    fn clear_flow(&mut self, flow_id: &str) -> (r: Result<(), String>) {
        match self {
            LocalFlowStore::NoOp => {},
            LocalFlowStore::InMemory(m) => {
                m.clear_flow(flow_id);
            },
        }
        Ok(())
    }

    fn increment(&mut self, flow_id: &str, key: &str) -> (r: Result<u64, String>)
        ensures
            held(old(self).contents(), flow_id@, key@) is None ==> r is Ok,
            forall|k: u64|
                k < u64::MAX && held(old(self).contents(), flow_id@, key@) == Some(
                    JsonModel::Number(#[trigger] text::decimal(k as nat)),
                ) ==> r is Ok,
    {
        match self {
            LocalFlowStore::NoOp => Ok(1),
            LocalFlowStore::InMemory(m) => {
                let count: u64 = match m.get(flow_id, key) {
                    None => 0,
                    Some(v) => match v.as_count() {
                        Some(n) => n,
                        None => {
                            return Err("value is not a counter".to_owned());
                        },
                    },
                };
                if count == u64::MAX {
                    proof {
                        assert forall|k: u64| k < u64::MAX implies #[trigger] text::decimal(
                            k as nat,
                        ) != text::decimal(count as nat) by {
                            if text::decimal(k as nat) == text::decimal(count as nat) {
                                text::lemma_decimal_injective(k as nat, count as nat);
                            }
                        }
                    }
                    return Err("counter is at its limit".to_owned());
                }
                m.set(flow_id, key, Json::number(count + 1));
                Ok(count + 1)
            },
        }
    }
}

/// What is held is as expected exactly where both are absent, or both are there with the same
/// content: an absent value is never taken for one that is there.
pub proof fn law_expectations_are_of_presence_and_content(a: JsonModel, b: JsonModel)
    ensures
        as_expected(None, None),
        !as_expected(Some(a), None),
        !as_expected(None, Some(b)),
        as_expected(Some(a), Some(b)) <==> json::json_same(a, b),
{
}

/// A change of one entry leaves every other: under another flow, or under another key of the same
/// flow, the same is held as before.
pub proof fn law_other_entries_are_left_alone(
    a: Contents,
    b: Contents,
    flow_id: Seq<char>,
    key: Seq<char>,
    other_flow: Seq<char>,
    other_key: Seq<char>,
)
    requires
        others_kept(a, b, flow_id, key),
    ensures
        other_flow != flow_id ==> held(b, other_flow, key) == held(a, other_flow, key),
        other_key != key ==> held(b, flow_id, other_key) == held(a, flow_id, other_key),
        other_flow != flow_id && other_key != key ==> held(b, other_flow, other_key) == held(
            a,
            other_flow,
            other_key,
        ),
        held(a, flow_id, key) is Some <==> a.dom().contains((flow_id, key)),
        held(a, flow_id, key) matches Some(v) ==> v == a[(flow_id, key)],
{
    assert((other_flow, key) != (flow_id, key) || other_flow == flow_id);
    assert((flow_id, other_key) != (flow_id, key) || other_key == key);
}

} // verus!
