//! An imposter: its configuration, its stubs, and the state it keeps.

use crate::copies;
use crate::fault;
use crate::fault::TcpFaultKind;
use crate::flow_store;
use crate::flow_store::{CasOutcome, Contents, FlowStore, LocalFlowStore, MemoryFlowStore};
use crate::journal;
use crate::journal::{JournalRead, JournalReadSince, LocalJournal, RequestJournal};
use crate::json::{Json, JsonModel};
use crate::lookup;
use crate::matching;
use crate::predicate::{Finding, MatchError};
use crate::predicates;
use crate::predicates::RequestParts;
use crate::proxy;
use crate::record;
use crate::record::RecordedRequest;
use crate::regex_cache::RegexCache;
use crate::snapshot;
use crate::snapshot::StubSnapshot;
use crate::stub::StubState;
use crate::stub_index;
use crate::text;
use crate::types::{ImposterConfig, RiftResponseExtension, Stub, StubResponse};
use vstd::prelude::*;

verus! {

/// How long the store that an imposter gets without asking keeps a flow's state.
pub const DEFAULT_FLOW_STATE_TTL_SECS: u64 = 300;

/// The store an imposter's configuration asks for.
#[derive(Clone, Copy, Debug, PartialEq, Eq, Structural)]
pub enum FlowStoreChoice {
    InMemory { ttl_seconds: u64 },
    Redis,
    NoOp,
}

/// Why there is no imposter with a Redis store here.
pub const NO_REDIS_BACKEND: &'static str = "flowState.backend is \"redis\" but this binary was built without the redis-backend feature (rebuild with --features redis-backend)";

/// Whether a stub names a scenario or takes part in one.
pub open spec fn in_scenario(s: Stub) -> bool {
    s.scenario_name is Some || s.required_scenario_state is Some || s.new_scenario_state is Some
}

/// Whether a response may run a script.
pub open spec fn runs_script(r: StubResponse) -> bool {
    match r {
        StubResponse::Is { is: _, behaviors: _, rift: Some(x) } => x.script is Some,
        StubResponse::RiftScript { script: _ } => true,
        _ => false,
    }
}

/// Whether an extension faults the connection.
pub open spec fn faults_connection(x: RiftResponseExtension) -> bool {
    match x.fault {
        Some(f) => match f.tcp {
            Some(t) => fault::fault_named(t.kind@) is Some,
            None => false,
        },
        None => false,
    }
}

/// Whether a response may fault the connection. A script may, at any time.
pub open spec fn may_fault(r: StubResponse) -> bool {
    match r {
        StubResponse::Fault { fault } => fault::fault_named(fault@) is Some,
        StubResponse::Is { is: _, behaviors: _, rift: Some(x) } => faults_connection(x),
        StubResponse::RiftScript { script: _ } => true,
        _ => false,
    }
}

/// Whether any stub names a scenario or takes part in one.
pub open spec fn scenario_used(stubs: Seq<Stub>) -> bool {
    exists|i: int| 0 <= i < stubs.len() && in_scenario(#[trigger] stubs[i])
}

/// Whether any response of a stub may run a script.
pub open spec fn stub_runs_script(s: Stub) -> bool {
    exists|k: int| 0 <= k < s.responses@.len() && runs_script(#[trigger] s.responses@[k])
}

/// Whether any stub may run a script.
pub open spec fn script_used(stubs: Seq<Stub>) -> bool {
    exists|i: int| 0 <= i < stubs.len() && stub_runs_script(#[trigger] stubs[i])
}

/// Whether any response of a stub may fault the connection.
pub open spec fn stub_may_fault(s: Stub) -> bool {
    exists|k: int| 0 <= k < s.responses@.len() && may_fault(#[trigger] s.responses@[k])
}

/// Whether any stub may fault the connection.
pub open spec fn fault_used(stubs: Seq<StubState>) -> bool {
    exists|i: int| 0 <= i < stubs.len() && stub_may_fault((#[trigger] stubs[i]).stub)
}

/// What is said of a backend that does not exist.
pub open spec fn unknown_backend(name: Seq<char>) -> Seq<char> {
    "flowState.backend is \""@ + name
        + "\" but no such backend exists (expected \"inmemory\" or \"redis\")"@
}

/// The store a configuration asks for: the configured backend, one in memory where stubs use
/// scenarios or scripts, else none. An unknown backend, and a Redis backend without its
/// configuration, are errors.
pub open spec fn store_choice(c: ImposterConfig) -> Result<FlowStoreChoice, Seq<char>> {
    if c.rift is Some && c.rift->0.flow_state is Some {
        let f = c.rift->0.flow_state->0;
        if f.backend@ == "inmemory"@ {
            Ok(FlowStoreChoice::InMemory { ttl_seconds: f.ttl_seconds as u64 })
        } else if f.backend@ == "redis"@ {
            if f.redis is Some {
                Ok(FlowStoreChoice::Redis)
            } else {
                Err("flowState.backend is \"redis\" but no redis config block was provided"@)
            }
        } else {
            Err(unknown_backend(f.backend@))
        }
    } else if scenario_used(c.stubs@) || script_used(c.stubs@) {
        Ok(FlowStoreChoice::InMemory { ttl_seconds: DEFAULT_FLOW_STATE_TTL_SECS })
    } else {
        Ok(FlowStoreChoice::NoOp)
    }
}

/// A choice as contracts see it.
pub open spec fn choice_model(r: Result<FlowStoreChoice, String>) -> Result<
    FlowStoreChoice,
    Seq<char>,
> {
    match r {
        Ok(c) => Ok(c),
        Err(e) => Err(e@),
    }
}

/// Whether any stub names a scenario or takes part in one.
pub fn uses_scenario_fsm(stubs: &Vec<Stub>) -> (r: bool)
    ensures
        r == scenario_used(stubs@),
{
    let mut i: usize = 0;
    while i < stubs.len()
        invariant
            i <= stubs@.len(),
            forall|k: int| 0 <= k < i ==> !in_scenario(#[trigger] stubs@[k]),
        decreases stubs@.len() - i,
    {
        if stubs[i].scenario_name.is_some() || stubs[i].required_scenario_state.is_some()
            || stubs[i].new_scenario_state.is_some() {
            proof {
                assert(in_scenario(stubs@[i as int]));
            }
            return true;
        }
        i += 1;
    }
    false
}

fn response_runs_script(r: &StubResponse) -> (b: bool)
    ensures
        b == runs_script(*r),
{
    match r {
        StubResponse::Is { is: _, behaviors: _, rift: Some(x) } => x.script.is_some(),
        StubResponse::RiftScript { script: _ } => true,
        _ => false,
    }
}

/// Whether any stub may run a script.
pub fn uses_script(stubs: &Vec<Stub>) -> (r: bool)
    ensures
        r == script_used(stubs@),
{
    let mut i: usize = 0;
    while i < stubs.len()
        invariant
            i <= stubs@.len(),
            forall|k: int| 0 <= k < i ==> !stub_runs_script(#[trigger] stubs@[k]),
        decreases stubs@.len() - i,
    {
        let responses = &stubs[i].responses;
        let mut j: usize = 0;
        while j < responses.len()
            invariant
                j <= responses@.len(),
                i < stubs@.len(),
                *responses == stubs@[i as int].responses,
                forall|k: int| 0 <= k < j ==> !runs_script(#[trigger] responses@[k]),
            decreases responses@.len() - j,
        {
            if response_runs_script(&responses[j]) {
                proof {
                    assert(runs_script(stubs@[i as int].responses@[j as int]));
                    assert(stub_runs_script(stubs@[i as int]));
                }
                return true;
            }
            j += 1;
        }
        i += 1;
    }
    false
}

fn response_may_fault(r: &StubResponse) -> (b: bool)
    ensures
        b == may_fault(*r),
{
    match r {
        StubResponse::Fault { fault } => TcpFaultKind::parse(fault.as_str()).is_some(),
        StubResponse::Is { is: _, behaviors: _, rift: Some(x) } => match &x.fault {
            Some(f) => match &f.tcp {
                Some(t) => TcpFaultKind::parse(t.kind.as_str()).is_some(),
                None => false,
            },
            None => false,
        },
        StubResponse::RiftScript { script: _ } => true,
        _ => false,
    }
}

/// The store a configuration asks for.
pub fn choose_flow_store(c: &ImposterConfig) -> (r: Result<FlowStoreChoice, String>)
    ensures
        choice_model(r) == store_choice(*c),
{
    if let Some(x) = &c.rift {
        if let Some(f) = &x.flow_state {
            if text::same_text(f.backend.as_str(), "inmemory") {
                return Ok(FlowStoreChoice::InMemory { ttl_seconds: f.ttl_seconds as u64 });
            }
            if text::same_text(f.backend.as_str(), "redis") {
                if f.redis.is_some() {
                    return Ok(FlowStoreChoice::Redis);
                }
                return Err(
                    "flowState.backend is \"redis\" but no redis config block was provided".to_owned(),
                );
            }
            let mut m: String = "flowState.backend is \"".to_owned();
            m.append(f.backend.as_str());
            m.append("\" but no such backend exists (expected \"inmemory\" or \"redis\")");
            return Err(m);
        }
    }
    if uses_scenario_fsm(&c.stubs) || uses_script(&c.stubs) {
        Ok(FlowStoreChoice::InMemory { ttl_seconds: DEFAULT_FLOW_STATE_TTL_SECS })
    } else {
        Ok(FlowStoreChoice::NoOp)
    }
}

/// The slot after a slot; the numbers start over after the last.
pub open spec fn slot_after(slot: u64) -> u64 {
    if slot == u64::MAX {
        0
    } else {
        (slot + 1) as u64
    }
}

/// The slot that comes `n` after the first.
pub open spec fn slot_from(first: u64, n: nat) -> u64
    decreases n,
{
    if n == 0 {
        first
    } else {
        slot_after(slot_from(first, (n - 1) as nat))
    }
}

/// One stub of its own for each of these at the start of its cycle, in slots from `first` on.
pub open spec fn fresh_states(stubs: Seq<Stub>, states: Seq<StubState>, first: u64) -> bool {
    &&& states.len() == stubs.len()
    &&& forall|i: int|
        0 <= i < stubs.len() ==> {
            &&& (#[trigger] states[i]).stub == stubs[i]
            &&& states[i].slot == slot_from(first, i as nat)
            &&& states[i].cycler.index == 0
            &&& states[i].cycler.served == 0
        }
}

/// No two stubs share a slot, and all slots come before the next one.
pub open spec fn slots_apart(states: Seq<StubState>, next: u64) -> bool {
    &&& forall|i: int| 0 <= i < states.len() ==> (#[trigger] states[i]).slot < next
    &&& forall|i: int, j: int|
        0 <= i < j < states.len() ==> (#[trigger] states[i]).slot != (#[trigger] states[j]).slot
}

proof fn lemma_slot_from(first: u64, n: nat)
    requires
        first + n <= u64::MAX,
    ensures
        slot_from(first, n) == first + n,
    decreases n,
{
    if n > 0 {
        lemma_slot_from(first, (n - 1) as nat);
    }
}

proof fn lemma_slot_wraps(first: u64, n: nat)
    ensures
        slot_from(first, n) as int == (first + n) % 0x1_0000_0000_0000_0000,
    decreases n,
{
    if n > 0 {
        lemma_slot_wraps(first, (n - 1) as nat);
    }
}

/// Slots that one counter gives out are apart, until it has given out every number there is.
pub proof fn law_minted_slots_are_apart(first: u64, i: nat, j: nat)
    requires
        i < j,
        j - i <= u64::MAX,
    ensures
        slot_from(first, i) != slot_from(first, j),
{
    lemma_slot_wraps(first, i);
    lemma_slot_wraps(first, j);
}

/// Stubs that are put in together have slots of their own, as long as the numbers last.
pub proof fn law_fresh_slots_are_apart(stubs: Seq<Stub>, states: Seq<StubState>, first: u64)
    requires
        fresh_states(stubs, states, first),
        first + stubs.len() <= u64::MAX,
    ensures
        slots_apart(states, slot_from(first, stubs.len())),
{
    lemma_slot_from(first, stubs.len());
    assert forall|i: int| 0 <= i < states.len() implies (#[trigger] states[i]).slot == first + i by {
        lemma_slot_from(first, i as nat);
    }
}

/// A recorded stub shares its slot with none that is there, as long as the numbers last.
pub proof fn law_recorded_slots_stay_apart(
    before: Seq<StubState>,
    after: Seq<StubState>,
    stub: Stub,
    to: Seq<char>,
    mode: Seq<char>,
    slot: u64,
)
    requires
        slots_apart(before, slot),
        slot < u64::MAX,
        proxy::placed(before, after, stub, to, mode, slot),
    ensures
        slots_apart(after, slot_after(slot)),
{
    let at = proxy::proxy_position(before, to);
    if mode == "proxyAlways"@ && proxy::merge_position(before, at + 1, stub.predicates@) is Some {
        let k = proxy::merge_position(before, at + 1, stub.predicates@)->0;
        assert forall|i: int| 0 <= i < after.len() implies (#[trigger] after[i]).slot
            == before[i].slot by {}
    } else {
        let k = if mode == "proxyAlways"@ {
            proxy::at_most(at + 1, before.len() as int)
        } else {
            proxy::at_most(at, before.len() as int)
        };
        law_an_inserted_slot_stays_apart(before, after, k, stub, slot);
    }
}

/// A stub that is put in shares its slot with none that is there, as long as the numbers last.
pub proof fn law_an_inserted_slot_stays_apart(
    before: Seq<StubState>,
    after: Seq<StubState>,
    at: int,
    stub: Stub,
    slot: u64,
)
    requires
        slots_apart(before, slot),
        slot < u64::MAX,
        proxy::inserted(before, after, at, stub, slot),
    ensures
        slots_apart(after, slot_after(slot)),
{
    assert forall|i: int| 0 <= i < after.len() && i != at implies (#[trigger] after[i]).slot
        == before[if i < at {
        i
    } else {
        i - 1
    }].slot by {}
}

/// The bytes of one text come before those of another.
pub open spec fn before(a: Seq<u8>, b: Seq<u8>) -> bool
    decreases a.len(),
{
    if b.len() == 0 {
        false
    } else if a.len() == 0 {
        true
    } else if a[0] != b[0] {
        a[0] < b[0]
    } else {
        before(a.drop_first(), b.drop_first())
    }
}

/// One text comes before another, byte by byte.
pub open spec fn text_before(a: Seq<char>, b: Seq<char>) -> bool {
    before(vstd::utf8::encode_utf8(a), vstd::utf8::encode_utf8(b))
}

fn bytes_before(a: &[u8], b: &[u8]) -> (r: bool)
    ensures
        r == before(a@, b@),
{
    let mut i: usize = 0;
    proof {
        assert(a@.skip(0) =~= a@);
        assert(b@.skip(0) =~= b@);
    }
    while i < a.len() && i < b.len()
        invariant
            i <= a@.len(),
            i <= b@.len(),
            before(a@, b@) == before(a@.skip(i as int), b@.skip(i as int)),
        decreases a@.len() - i,
    {
        proof {
            assert(a@.skip(i as int).drop_first() =~= a@.skip(i + 1));
            assert(b@.skip(i as int).drop_first() =~= b@.skip(i + 1));
            assert(a@.skip(i as int)[0] == a@[i as int]);
            assert(b@.skip(i as int)[0] == b@[i as int]);
        }
        if a[i] != b[i] {
            return a[i] < b[i];
        }
        i += 1;
    }
    i < b.len()
}

/// Of two different texts one comes before the other.
proof fn lemma_one_is_before(a: Seq<u8>, b: Seq<u8>)
    requires
        a != b,
    ensures
        before(a, b) || before(b, a),
    decreases a.len(),
{
    if a.len() == 0 || b.len() == 0 {
        if a.len() == 0 && b.len() == 0 {
            assert(a =~= b);
        }
    } else if a[0] == b[0] {
        if a.drop_first() == b.drop_first() {
            assert(a =~= seq![a[0]] + a.drop_first());
            assert(b =~= seq![b[0]] + b.drop_first());
        }
        lemma_one_is_before(a.drop_first(), b.drop_first());
    }
}

proof fn lemma_before_transitive(a: Seq<u8>, b: Seq<u8>, c: Seq<u8>)
    requires
        before(a, b),
        before(b, c),
    ensures
        before(a, c),
    decreases a.len(),
{
    if a.len() > 0 && a[0] == b[0] && b[0] == c[0] {
        lemma_before_transitive(a.drop_first(), b.drop_first(), c.drop_first());
    }
}

/// Texts that grow from one to the next, so that none stands twice.
pub open spec fn ascending(names: Seq<Seq<char>>) -> bool {
    forall|i: int, j: int|
        0 <= i < j < names.len() ==> text_before(#[trigger] names[i], #[trigger] names[j])
}

/// A name joins a list in order, unless it stands there.
fn add_name(names: &mut Vec<String>, name: &str)
    requires
        ascending(record::texts(old(names)@)),
    ensures
        ascending(record::texts(final(names)@)),
        forall|t: Seq<char>| #[trigger]
            record::texts(final(names)@).contains(t) <==> record::texts(old(names)@).contains(t)
                || t == name@,
{
    let ghost had = record::texts(names@);
    let mut i: usize = 0;
    while i < names.len() && bytes_before(names[i].as_str().as_bytes(), name.as_bytes())
        invariant
            i <= names@.len(),
            had == record::texts(names@),
            forall|k: int| 0 <= k < i ==> text_before(#[trigger] had[k], name@),
        decreases names@.len() - i,
    {
        i += 1;
    }
    if i < names.len() && text::same_text(names[i].as_str(), name) {
        proof {
            assert(had[i as int] == name@);
        }
        return ;
    }
    proof {
        if i < had.len() {
            if vstd::utf8::encode_utf8(had[i as int]) == vstd::utf8::encode_utf8(name@) {
                text::lemma_exact_eq(had[i as int], name@);
            }
            lemma_one_is_before(
                vstd::utf8::encode_utf8(had[i as int]),
                vstd::utf8::encode_utf8(name@),
            );
        }
        assert forall|k: int| i <= k < had.len() implies text_before(name@, #[trigger] had[k]) by {
            if k > i {
                assert(text_before(had[i as int], had[k]));
                lemma_before_transitive(
                    vstd::utf8::encode_utf8(name@),
                    vstd::utf8::encode_utf8(had[i as int]),
                    vstd::utf8::encode_utf8(had[k]),
                );
            }
        }
    }
    names.insert(i, name.to_owned());
    proof {
        let now = record::texts(names@);
        assert(now =~= had.insert(i as int, name@));
        assert forall|a: int, b: int| 0 <= a < b < now.len() implies text_before(
            #[trigger] now[a],
            #[trigger] now[b],
        ) by {
            if a < i && b > i {
                assert(text_before(had[a], had[b - 1]));
            } else if a < i && b < i {
                assert(text_before(had[a], had[b]));
            } else if a > i {
                assert(text_before(had[a - 1], had[b - 1]));
            } else if a == i {
                assert(text_before(name@, had[b - 1]));
            } else {
                assert(text_before(had[a], name@));
            }
        }
        assert forall|t: Seq<char>| #[trigger] now.contains(t) <==> had.contains(t) || t
            == name@ by {
            if had.contains(t) {
                let k = choose|k: int| 0 <= k < had.len() && had[k] == t;
                if k < i {
                    assert(now[k] == t);
                } else {
                    assert(now[k + 1] == t);
                }
            }
            if t == name@ {
                assert(now[i as int] == t);
            }
            if now.contains(t) {
                let k = choose|k: int| 0 <= k < now.len() && now[k] == t;
                if k < i {
                    assert(had[k] == t);
                } else if k > i {
                    assert(had[k - 1] == t);
                }
            }
        }
    }
}

/// Whether a stub names this scenario.
pub open spec fn names_scenario(s: StubState, name: Seq<char>) -> bool {
    s.stub.scenario_name is Some && s.stub.scenario_name->0@ == name
}

/// Whether some stub names this scenario.
pub open spec fn scenario_named(stubs: Seq<StubState>, name: Seq<char>) -> bool {
    exists|i: int| 0 <= i < stubs.len() && names_scenario(#[trigger] stubs[i], name)
}

/// The scenario names of stubs, in order and each once.
pub fn scenario_names_of(stubs: &Vec<StubState>) -> (r: Vec<String>)
    ensures
        ascending(record::texts(r@)),
        forall|t: Seq<char>| #[trigger]
            record::texts(r@).contains(t) <==> scenario_named(stubs@, t),
{
    let mut names: Vec<String> = Vec::new();
    let mut i: usize = 0;
    while i < stubs.len()
        invariant
            i <= stubs@.len(),
            ascending(record::texts(names@)),
            forall|t: Seq<char>| #[trigger]
                record::texts(names@).contains(t) <==> exists|k: int|
                    0 <= k < i && names_scenario(#[trigger] stubs@[k], t),
        decreases stubs@.len() - i,
    {
        let ghost had = record::texts(names@);
        if let Some(n) = &stubs[i].stub.scenario_name {
            add_name(&mut names, n.as_str());
        }
        proof {
            assert forall|t: Seq<char>| #[trigger]
                record::texts(names@).contains(t) <==> exists|k: int|
                    0 <= k < i + 1 && names_scenario(#[trigger] stubs@[k], t) by {
                if exists|k: int| 0 <= k < i + 1 && names_scenario(#[trigger] stubs@[k], t) {
                    let k = choose|k: int|
                        0 <= k < i + 1 && names_scenario(#[trigger] stubs@[k], t);
                    if k < i {
                        assert(had.contains(t));
                    }
                }
                if record::texts(names@).contains(t) {
                    if had.contains(t) {
                        let k = choose|k: int|
                            0 <= k < i && names_scenario(#[trigger] stubs@[k], t);
                        assert(names_scenario(stubs@[k], t));
                    } else {
                        assert(names_scenario(stubs@[i as int], t));
                    }
                }
            }
        }
        i += 1;
    }
    names
}

/// Whether a conditional move out of a state applies: the scenario is in it, or has no state while
/// the initial one is required.
pub open spec fn moves(current: Option<JsonModel>, required: Seq<char>) -> bool {
    current == Some(JsonModel::Text(required)) || (current is None && required
        == matching::INITIAL_SCENARIO_STATE@)
}

/// The state of a stub's scenario after the stub was served. A stub that requires a state moves the
/// scenario out of that state only; a state that changed meanwhile stays as it is.
pub open spec fn state_after(current: Option<JsonModel>, s: Stub) -> Option<JsonModel> {
    match s.new_scenario_state {
        None => current,
        Some(next) => match s.required_scenario_state {
            None => Some(JsonModel::Text(next@)),
            Some(required) => if moves(current, required@) {
                Some(JsonModel::Text(next@))
            } else {
                current
            },
        },
    }
}

/// An imposter.
pub struct Imposter<S: FlowStore, J: RequestJournal> {
    pub config: ImposterConfig,
    pub snapshot: StubSnapshot,
    pub flow_store: S,
    pub journal: J,
    pub enabled: bool,
    /// The slot of the next stub that is put in.
    pub next_slot: u64,
    /// What an analysis of the stubs warned of, until the stubs change.
    pub warnings: Option<Vec<String>>,
}

/// The source of an imposter's flow ids.
pub open spec fn source_of(c: ImposterConfig) -> Seq<char> {
    match c.rift {
        Some(x) => match x.flow_state {
            Some(f) => match f.flow_id_source {
                Some(s) => s@,
                None => "imposter_port"@,
            },
            None => "imposter_port"@,
        },
        None => "imposter_port"@,
    }
}

/// The port an imposter listens on; zero before it does.
pub open spec fn port_of(c: ImposterConfig) -> u16 {
    match c.port {
        Some(p) => p,
        None => 0,
    }
}

/// Which of the stubs are outside a space, in order.
pub open spec fn outside(stubs: Seq<StubState>, space: Seq<char>) -> Seq<StubState>
    decreases stubs.len(),
{
    if stubs.len() == 0 {
        Seq::empty()
    } else if in_space(stubs.last().stub, space) {
        outside(stubs.drop_last(), space)
    } else {
        outside(stubs.drop_last(), space).push(stubs.last())
    }
}

/// Which of the stubs are in a space, by position, in order.
pub open spec fn within(stubs: Seq<StubState>, space: Seq<char>) -> Seq<int>
    decreases stubs.len(),
{
    if stubs.len() == 0 {
        Seq::empty()
    } else if in_space(stubs.last().stub, space) {
        within(stubs.drop_last(), space).push(stubs.len() - 1)
    } else {
        within(stubs.drop_last(), space)
    }
}

/// Whether a stub is for one space alone, and for this one.
pub open spec fn in_space(s: Stub, space: Seq<char>) -> bool {
    s.space is Some && s.space->0@ == space
}

/// The position of the stub with an id.
pub open spec fn position_by_id(stubs: Seq<StubState>, id: Seq<char>) -> Option<int>
    decreases stubs.len(),
{
    if stubs.len() == 0 {
        None
    } else if stubs[0].stub.id is Some && stubs[0].stub.id->0@ == id {
        Some(0)
    } else {
        match position_by_id(stubs.drop_first(), id) {
            Some(i) => Some(i + 1),
            None => None,
        }
    }
}

/// One stub's content was replaced; its place in the cycle and its slot stay.
pub open spec fn content_replaced(
    before: Seq<StubState>,
    after: Seq<StubState>,
    at: int,
    stub: Stub,
) -> bool {
    &&& 0 <= at < before.len()
    &&& after == before.update(at, after[at])
    &&& after[at].stub == stub
    &&& after[at].cycler == before[at].cycler
    &&& after[at].slot == before[at].slot
}

impl Imposter<LocalFlowStore, LocalJournal> {
    /// An imposter with the store its configuration asks for, in this process. A configuration
    /// that asks for a backend elsewhere, or for none that exists, is an error.
    pub fn new(config: ImposterConfig) -> (r: Result<Self, String>)
        ensures
            r is Ok <==> (store_choice(config) is Ok && store_choice(config)->Ok_0
                != FlowStoreChoice::Redis),
            (match r {
                Ok(i) => {
                    &&& i.wf()
                    &&& i.enabled
                    &&& fresh_states(config.stubs@, i.states(), 1)
                    &&& i.next_slot == slot_from(1, config.stubs@.len())
                    &&& i.warnings is None
                    &&& i.config == (ImposterConfig { stubs: i.config.stubs, ..config })
                    &&& copies::stubs_copied(config.stubs@, i.config.stubs@)
                    &&& (match i.flow_store {
                        LocalFlowStore::NoOp => store_choice(config)->Ok_0 == FlowStoreChoice::NoOp,
                        LocalFlowStore::InMemory(m) => store_choice(config)->Ok_0
                            == FlowStoreChoice::InMemory { ttl_seconds: m.lifetime() },
                    })
                    &&& i.flow_store.contents() == Map::<
                        (Seq<char>, Seq<char>),
                        JsonModel,
                    >::empty()
                    &&& forall|p: u16| #[trigger] i.journal.retained(p).len() == 0
                    &&& forall|p: u16| #[trigger] i.journal.counted(p) == 0
                    &&& forall|p: u16| #[trigger] i.journal.accepts(p)
                },
                Err(e) => e@ == (match store_choice(config) {
                    Ok(_) => NO_REDIS_BACKEND@,
                    Err(why) => why,
                }),
            }),
    {
        let choice: FlowStoreChoice = match choose_flow_store(&config) {
            Ok(c) => c,
            Err(e) => {
                return Err(e);
            },
        };
        let store: LocalFlowStore = match choice {
            FlowStoreChoice::NoOp => LocalFlowStore::NoOp,
            FlowStoreChoice::InMemory { ttl_seconds } => LocalFlowStore::InMemory(
                MemoryFlowStore::new(ttl_seconds),
            ),
            FlowStoreChoice::Redis => {
                return Err(NO_REDIS_BACKEND.to_owned());
            },
        };
        Ok(Imposter::with_parts(config, store, LocalJournal::new()))
    }
}

impl<S: FlowStore, J: RequestJournal> Imposter<S, J> {
    /// The stubs in declaration order.
    pub open spec fn states(&self) -> Seq<StubState> {
        self.snapshot.states()
    }

    /// The stubs with their index.
    pub open spec fn indexed(&self) -> StubSnapshot {
        self.snapshot
    }

    /// The index is that of the stubs, and the journal is sound.
    pub open spec fn wf(&self) -> bool {
        self.snapshot.wf() && self.journal.wf()
    }

    /// The index covers the stubs, as the laws on it ask.
    pub proof fn law_the_index_covers_the_stubs(&self)
        requires
            self.wf(),
        ensures
            self.indexed().lookup().wf(),
            self.indexed().lookup().covers(self.states()),
    {
        self.snapshot.law_the_index_covers_the_stubs();
    }

    /// An imposter with a store and a journal from elsewhere. The configuration's stubs become the
    /// imposter's, and the configuration keeps them as they were given.
    pub fn with_parts(config: ImposterConfig, flow_store: S, journal: J) -> (r: Self)
        requires
            journal.wf(),
        ensures
            r.wf(),
            r.enabled,
            fresh_states(config.stubs@, r.states(), 1),
            r.next_slot == slot_from(1, config.stubs@.len()),
            r.warnings is None,
            r.config == (ImposterConfig { stubs: r.config.stubs, ..config }),
            copies::stubs_copied(config.stubs@, r.config.stubs@),
            r.flow_store == flow_store,
            r.journal == journal,
    {
        let mut config = config;
        let mut stubs: Vec<Stub> = copies::copy_stubs(&config.stubs);
        std::mem::swap(&mut stubs, &mut config.stubs);
        let mut next_slot: u64 = 1;
        let states: Vec<StubState> = mint(stubs, &mut next_slot);
        Imposter {
            config,
            snapshot: StubSnapshot::build(states),
            flow_store,
            journal,
            enabled: true,
            next_slot,
            warnings: None,
        }
    }

    /// The stubs with their index.
    pub fn snapshot(&self) -> (r: &StubSnapshot)
        requires
            self.wf(),
        ensures
            r.wf(),
            *r == self.indexed(),
            r.states() == self.states(),
    {
        &self.snapshot
    }

    /// The stubs in declaration order.
    pub fn stubs(&self) -> (r: &Vec<StubState>)
        ensures
            r@ == self.states(),
    {
        self.snapshot.stubs()
    }

    /// Takes the stubs out, to be put back changed.
    fn take_stubs(&mut self) -> (r: Vec<StubState>)
        requires
            old(self).wf(),
        ensures
            final(self).wf(),
            r@ == old(self).states(),
            final(self).next_slot == old(self).next_slot,
            same_but_stubs(*old(self), *final(self)),
    {
        let mut snap: StubSnapshot = StubSnapshot::build(Vec::new());
        std::mem::swap(&mut snap, &mut self.snapshot);
        snap.into_stubs()
    }

    /// Puts stubs in place of the present ones, with an index of their own. What was warned of is
    /// no longer known.
    fn put_stubs(&mut self, stubs: Vec<StubState>)
        requires
            old(self).wf(),
        ensures
            final(self).wf(),
            final(self).states() == stubs@,
            final(self).next_slot == old(self).next_slot,
            final(self).warnings is None,
            same_but_stubs(*old(self), *final(self)),
    {
        self.snapshot = StubSnapshot::build(stubs);
        self.warnings = None;
    }

    fn mint_slot(&mut self) -> (r: u64)
        requires
            old(self).wf(),
        ensures
            final(self).wf(),
            final(self).states() == old(self).states(),
            final(self).indexed() == old(self).indexed(),
            r == old(self).next_slot,
            final(self).next_slot == slot_after(old(self).next_slot),
            same_but_stubs(*old(self), *final(self)),
    {
        let slot: u64 = self.next_slot;
        self.next_slot = if slot == u64::MAX {
            0
        } else {
            slot + 1
        };
        slot
    }

    /// Replaces all stubs.
    pub fn replace_stubs(&mut self, new_stubs: Vec<Stub>)
        requires
            old(self).wf(),
        ensures
            final(self).wf(),
            fresh_states(new_stubs@, final(self).states(), old(self).next_slot),
            final(self).next_slot == slot_from(old(self).next_slot, new_stubs@.len()),
            final(self).warnings is None,
            same_but_stubs(*old(self), *final(self)),
    {
        let mut next: u64 = self.next_slot;
        let states: Vec<StubState> = mint(new_stubs, &mut next);
        self.next_slot = next;
        self.put_stubs(states);
    }

    /// Replaces the content of the stub at a position. What was warned of is no longer known,
    /// whether or not there is such a stub.
    pub fn replace_stub(&mut self, index: usize, stub: Stub) -> (r: Result<(), String>)
        requires
            old(self).wf(),
        ensures
            final(self).wf(),
            same_but_stubs(*old(self), *final(self)),
            r is Ok <==> index < old(self).states().len(),
            r is Ok ==> content_replaced(
                old(self).states(),
                final(self).states(),
                index as int,
                stub,
            ),
            r is Err ==> final(self).states() == old(self).states(),
            final(self).next_slot == old(self).next_slot,
            final(self).warnings is None,
            r is Err ==> r->Err_0@ == "stub index out of bounds"@,
    {
        self.warnings = None;
        if index >= self.snapshot.stubs().len() {
            return Err("stub index out of bounds".to_owned());
        }
        let mut stubs: Vec<StubState> = self.take_stubs();
        let ghost before = stubs@;
        let was: StubState = stubs.remove(index);
        stubs.insert(index, was.with_stub(stub));
        proof {
            assert(stubs@ =~= before.update(index as int, stubs@[index as int]));
        }
        self.put_stubs(stubs);
        Ok(())
    }

    /// Replaces the content of the stub with an id, where there is one. What was warned of is no
    /// longer known, whether or not there is.
    pub fn replace_stub_by_id(&mut self, id: &str, stub: Stub) -> (r: bool)
        requires
            old(self).wf(),
        ensures
            final(self).wf(),
            same_but_stubs(*old(self), *final(self)),
            (match position_by_id(old(self).states(), id@) {
                Some(i) => r && content_replaced(old(self).states(), final(self).states(), i, stub),
                None => !r && final(self).states() == old(self).states(),
            }),
            final(self).warnings is None,
            final(self).next_slot == old(self).next_slot,
    {
        let stubs: &Vec<StubState> = self.snapshot.stubs();
        let mut i: usize = 0;
        proof {
            assert(stubs@.skip(0) =~= stubs@);
        }
        while i < stubs.len()
            invariant_except_break
                position_by_id(stubs@, id@) == (match position_by_id(stubs@.skip(i as int), id@) {
                    Some(k) => Some(k + i),
                    None => None,
                }),
            invariant
                i <= stubs@.len(),
            ensures
                i < stubs@.len() ==> position_by_id(stubs@, id@) == Some(i as int),
                i == stubs@.len() ==> position_by_id(stubs@, id@) is None,
            decreases stubs@.len() - i,
        {
            proof {
                assert(stubs@.skip(i as int).drop_first() =~= stubs@.skip(i + 1));
                assert(stubs@.skip(i as int)[0] == stubs@[i as int]);
            }
            if let Some(s) = &stubs[i].stub.id {
                if text::same_text(s.as_str(), id) {
                    break ;
                }
            }
            i += 1;
        }
        if i == stubs.len() {
            self.warnings = None;
            return false;
        }
        match self.replace_stub(i, stub) {
            Ok(_) => true,
            Err(_) => false,
        }
    }

    /// Puts a generated stub at a position, or at the end where the position lies past it.
    pub fn insert_generated_stub(&mut self, stub: Stub, before_index: usize)
        requires
            old(self).wf(),
        ensures
            final(self).wf(),
            same_but_stubs(*old(self), *final(self)),
            proxy::inserted(
                old(self).states(),
                final(self).states(),
                proxy::at_most(before_index as int, old(self).states().len() as int),
                stub,
                old(self).next_slot,
            ),
            final(self).next_slot == slot_after(old(self).next_slot),
            final(self).warnings is None,
    {
        let slot: u64 = self.mint_slot();
        let mut stubs: Vec<StubState> = self.take_stubs();
        proxy::insert_generated_stub(&mut stubs, stub, before_index, slot);
        self.put_stubs(stubs);
    }

    /// Puts a recorded stub where its proxy's mode wants it.
    pub fn insert_or_append_proxy_stub(&mut self, stub: Stub, proxy_to: &str, proxy_mode: &str)
        requires
            old(self).wf(),
        ensures
            final(self).wf(),
            same_but_stubs(*old(self), *final(self)),
            proxy::placed(
                old(self).states(),
                final(self).states(),
                stub,
                proxy_to@,
                proxy_mode@,
                old(self).next_slot,
            ),
            final(self).next_slot == slot_after(old(self).next_slot),
            final(self).warnings is None,
    {
        let slot: u64 = self.mint_slot();
        let mut stubs: Vec<StubState> = self.take_stubs();
        proxy::insert_or_append_proxy_stub(&mut stubs, stub, proxy_to, proxy_mode, slot);
        self.put_stubs(stubs);
    }

    /// The position of the response that a stub serves next, moving on in its cycle.
    pub fn advance(&mut self, at: usize) -> (r: Option<usize>)
        requires
            old(self).wf(),
            at < old(self).states().len(),
        ensures
            final(self).wf(),
            same_but_stubs(*old(self), *final(self)),
            final(self).states().len() == old(self).states().len(),
            forall|i: int|
                0 <= i < old(self).states().len() && i != at ==> #[trigger] final(self).states()[i]
                    == old(self).states()[i],
            snapshot::served(old(self).states()[at as int], final(self).states()[at as int], r),
            final(self).next_slot == old(self).next_slot,
            final(self).warnings == old(self).warnings,
    {
        self.snapshot.advance(at)
    }

    /// What an analysis of the stubs warns of. The analysis runs once; what it warned of is kept
    /// until the stubs change.
    pub fn stub_warnings<A: Fn(&Vec<StubState>) -> Vec<String>>(&mut self, analysis: A) -> (r: &Vec<
        String,
    >)
        requires
            old(self).wf(),
            forall|v: &Vec<StubState>| #[trigger] call_requires(analysis, (v,)),
        ensures
            final(self).wf(),
            final(self).states() == old(self).states(),
            final(self).indexed() == old(self).indexed(),
            final(self).next_slot == old(self).next_slot,
            same_but_stubs(*old(self), *final(self)),
            final(self).warnings == Some(*r),
            old(self).warnings is Some ==> final(self).warnings == old(self).warnings,
            old(self).warnings is None ==> exists|v: &Vec<StubState>| #[trigger]
                call_ensures(analysis, (v,), *r) && v@ == old(self).states(),
    {
        if self.warnings.is_none() {
            let found: Vec<String> = analysis(self.snapshot.stubs());
            self.warnings = Some(found);
        }
        match &self.warnings {
            Some(w) => w,
            None => {
                proof {
                    assert(false);
                }
                vstd::pervasive::unreached()
            },
        }
    }

    /// Whether some stub may fault the connection, so that requests of a connection cannot be
    /// served side by side.
    pub fn uses_tcp_faults(&self) -> (r: bool)
        ensures
            r == fault_used(self.states()),
    {
        let stubs: &Vec<StubState> = self.snapshot.stubs();
        let mut i: usize = 0;
        while i < stubs.len()
            invariant
                i <= stubs@.len(),
                stubs@ == self.states(),
                forall|k: int| 0 <= k < i ==> !stub_may_fault((#[trigger] stubs@[k]).stub),
            decreases stubs@.len() - i,
        {
            let responses = &stubs[i].stub.responses;
            let mut j: usize = 0;
            while j < responses.len()
                invariant
                    j <= responses@.len(),
                    i < stubs@.len(),
                    stubs@ == self.states(),
                    *responses == stubs@[i as int].stub.responses,
                    forall|k: int| 0 <= k < j ==> !may_fault(#[trigger] responses@[k]),
                decreases responses@.len() - j,
            {
                if response_may_fault(&responses[j]) {
                    proof {
                        assert(may_fault(stubs@[i as int].stub.responses@[j as int]));
                        assert(stub_may_fault(stubs@[i as int].stub));
                    }
                    return true;
                }
                j += 1;
            }
            i += 1;
        }
        false
    }

    /// The key of the imposter's script state: its port.
    pub fn script_state_key(&self) -> (r: u16)
        ensures
            r == port_of(self.config),
    {
        match self.config.port {
            Some(p) => p,
            None => 0,
        }
    }

    /// The source of flow ids: `imposter_port`, or `header:` and a name.
    pub fn flow_id_source(&self) -> (r: String)
        ensures
            r@ == source_of(self.config),
    {
        match &self.config.rift {
            Some(x) => match &x.flow_state {
                Some(f) => match &f.flow_id_source {
                    Some(s) => s.as_str().to_owned(),
                    None => "imposter_port".to_owned(),
                },
                None => "imposter_port".to_owned(),
            },
            None => "imposter_port".to_owned(),
        }
    }

    /// The flow a request belongs to.
    pub fn resolve_flow_id(&self, headers: &Vec<(String, Vec<String>)>) -> (r: String)
        ensures
            r@ == matching::flow_of(
                source_of(self.config),
                record::header_lines(headers@),
                port_of(self.config),
            ),
    {
        matching::flow_id_for(
            self.flow_id_source().as_str(),
            headers,
            self.script_state_key(),
        )
    }

    /// The flow a recorded request belongs to: the same as when it came in.
    pub fn resolve_flow_id_recorded(&self, headers: &Vec<(String, Vec<String>)>) -> (r: String)
        ensures
            r@ == matching::flow_of(
                source_of(self.config),
                record::header_lines(headers@),
                port_of(self.config),
            ),
    {
        self.resolve_flow_id(headers)
    }

    /// The stub that answers a request, with its position. An error of the store or of a script is
    /// an error, never no match.
    pub fn find_matching_stub_with_client(
        &self,
        method: &str,
        path: &str,
        headers: &Vec<(String, Vec<String>)>,
        query: Option<&str>,
        body: Option<&str>,
        request_from: Option<&str>,
        client_ip: Option<&str>,
        findings: &Vec<Finding>,
        cache: &mut RegexCache,
    ) -> (r: Result<Option<(&StubState, usize)>, MatchError>)
        requires
            self.wf(),
            old(cache).wf(),
        ensures
            final(cache).wf(),
            r matches Ok(Some((s, i))) ==> i < self.states().len() && *s == self.states()[i as int],
            ({
                let seen = matching::request_seen(
                    method@,
                    path@,
                    record::header_lines(headers@),
                    text::optional_str(query),
                    text::optional_str(body),
                    text::optional_str(request_from),
                    text::optional_str(client_ip),
                );
                matching::found_at(position(r)) == matching::first_match(
                    self.states(),
                    self.indexed().lookup().chosen(self.states(), snapshot::key_of(seen)),
                    0,
                    seen,
                    findings@,
                    matching::flow_of(
                        source_of(self.config),
                        record::header_lines(headers@),
                        port_of(self.config),
                    ),
                    self.flow_store.contents(),
                ) || (r is Err && r->Err_0 is Store && !self.flow_store.reliable()
                    && snapshot::any_gated(self.states()))
            }),
            ({
                let linear = matching::first_match(
                    self.states(),
                    stub_index::all_ids(self.states().len()),
                    0,
                    matching::request_seen(
                        method@,
                        path@,
                        record::header_lines(headers@),
                        text::optional_str(query),
                        text::optional_str(body),
                        text::optional_str(request_from),
                        text::optional_str(client_ip),
                    ),
                    findings@,
                    matching::flow_of(
                        source_of(self.config),
                        record::header_lines(headers@),
                        port_of(self.config),
                    ),
                    self.flow_store.contents(),
                );
                linear is Ok ==> matching::found_at(position(r)) == linear || (r is Err
                    && r->Err_0 is Store && !self.flow_store.reliable() && snapshot::any_gated(
                    self.states(),
                ))
            }),
    {
        let single: Vec<(String, String)> = matching::single_values(headers);
        let form: Option<Vec<(String, String)>> = matching::parse_form_data(&single, body);
        let flow_id: String = self.resolve_flow_id(headers);
        let parts = RequestParts {
            method,
            path,
            query,
            headers: &single,
            body,
            request_from,
            client_ip,
            form: form.as_ref(),
        };
        proof {
            assert(parts@ == matching::request_seen(
                method@,
                path@,
                record::header_lines(headers@),
                text::optional_str(query),
                text::optional_str(body),
                text::optional_str(request_from),
                text::optional_str(client_ip),
            ));
        }
        match matching::find_in(
            &self.snapshot,
            &parts,
            findings,
            flow_id.as_str(),
            &self.flow_store,
            cache,
        ) {
            Ok(Some(i)) => Ok(Some((&self.snapshot.stubs()[i], i))),
            Ok(None) => Ok(None),
            Err(e) => Err(e),
        }
    }

    /// The stub that answers a request of an unknown client.
    pub fn find_matching_stub(
        &self,
        method: &str,
        path: &str,
        headers: &Vec<(String, Vec<String>)>,
        query: Option<&str>,
        body: Option<&str>,
        findings: &Vec<Finding>,
        cache: &mut RegexCache,
    ) -> (r: Result<Option<(&StubState, usize)>, MatchError>)
        requires
            self.wf(),
            old(cache).wf(),
        ensures
            final(cache).wf(),
            r matches Ok(Some((s, i))) ==> i < self.states().len() && *s == self.states()[i as int],
            ({
                let seen = matching::request_seen(
                    method@,
                    path@,
                    record::header_lines(headers@),
                    text::optional_str(query),
                    text::optional_str(body),
                    None,
                    None,
                );
                matching::found_at(position(r)) == matching::first_match(
                    self.states(),
                    self.indexed().lookup().chosen(self.states(), snapshot::key_of(seen)),
                    0,
                    seen,
                    findings@,
                    matching::flow_of(
                        source_of(self.config),
                        record::header_lines(headers@),
                        port_of(self.config),
                    ),
                    self.flow_store.contents(),
                ) || (r is Err && r->Err_0 is Store && !self.flow_store.reliable()
                    && snapshot::any_gated(self.states()))
            }),
            ({
                let linear = matching::first_match(
                    self.states(),
                    stub_index::all_ids(self.states().len()),
                    0,
                    matching::request_seen(
                        method@,
                        path@,
                        record::header_lines(headers@),
                        text::optional_str(query),
                        text::optional_str(body),
                        None,
                        None,
                    ),
                    findings@,
                    matching::flow_of(
                        source_of(self.config),
                        record::header_lines(headers@),
                        port_of(self.config),
                    ),
                    self.flow_store.contents(),
                );
                linear is Ok ==> matching::found_at(position(r)) == linear || (r is Err
                    && r->Err_0 is Store && !self.flow_store.reliable() && snapshot::any_gated(
                    self.states(),
                ))
            }),
    {
        self.find_matching_stub_with_client(
            method,
            path,
            headers,
            query,
            body,
            None,
            None,
            findings,
            cache,
        )
    }

    /// The stub that answers a request, trying every stub.
    pub fn find_matching_stub_linear(
        &self,
        method: &str,
        path: &str,
        headers: &Vec<(String, Vec<String>)>,
        query: Option<&str>,
        body: Option<&str>,
        request_from: Option<&str>,
        client_ip: Option<&str>,
        findings: &Vec<Finding>,
        cache: &mut RegexCache,
    ) -> (r: Result<Option<(&StubState, usize)>, MatchError>)
        requires
            self.wf(),
            old(cache).wf(),
        ensures
            final(cache).wf(),
            r matches Ok(Some((s, i))) ==> i < self.states().len() && *s == self.states()[i as int],
            ({
                let seen = matching::request_seen(
                    method@,
                    path@,
                    record::header_lines(headers@),
                    text::optional_str(query),
                    text::optional_str(body),
                    text::optional_str(request_from),
                    text::optional_str(client_ip),
                );
                matching::found_at(position(r)) == matching::first_match(
                    self.states(),
                    stub_index::all_ids(self.states().len()),
                    0,
                    seen,
                    findings@,
                    matching::flow_of(
                        source_of(self.config),
                        record::header_lines(headers@),
                        port_of(self.config),
                    ),
                    self.flow_store.contents(),
                ) || (r is Err && r->Err_0 is Store && !self.flow_store.reliable()
                    && snapshot::any_gated(self.states()))
            }),
    {
        let single: Vec<(String, String)> = matching::single_values(headers);
        let form: Option<Vec<(String, String)>> = matching::parse_form_data(&single, body);
        let flow_id: String = self.resolve_flow_id(headers);
        let parts = RequestParts {
            method,
            path,
            query,
            headers: &single,
            body,
            request_from,
            client_ip,
            form: form.as_ref(),
        };
        proof {
            assert(parts@ == matching::request_seen(
                method@,
                path@,
                record::header_lines(headers@),
                text::optional_str(query),
                text::optional_str(body),
                text::optional_str(request_from),
                text::optional_str(client_ip),
            ));
        }
        match matching::find_linear(
            &self.snapshot,
            &parts,
            findings,
            flow_id.as_str(),
            &self.flow_store,
            cache,
        ) {
            Ok(Some(i)) => Ok(Some((&self.snapshot.stubs()[i], i))),
            Ok(None) => Ok(None),
            Err(e) => Err(e),
        }
    }

    /// Whether matching has to run where it may block: a script may run, or the state of a scenario
    /// is read from a store that may block. A deadline is set for scripts only.
    pub fn matching_offload(&self) -> (r: (bool, bool))
        requires
            self.wf(),
        ensures
            r.1 == snapshot::any_injects(self.states()),
            r.0 == (snapshot::any_injects(self.states()) || (snapshot::any_gated(self.states())
                && self.flow_store.blocking())),
    {
        let has_inject: bool = self.snapshot.has_inject();
        let offload: bool = has_inject || (self.snapshot.has_scenario_gate()
            && self.flow_store.is_blocking());
        (offload, has_inject)
    }
}

/// A match by its position.
pub open spec fn position(r: Result<Option<(&StubState, usize)>, MatchError>) -> Result<
    Option<usize>,
    MatchError,
> {
    match r {
        Ok(Some((s, i))) => Ok(Some(i)),
        Ok(None) => Ok(None),
        Err(e) => Err(e),
    }
}

/// Nothing of an imposter but its stubs differs.
pub open spec fn same_but_stubs<S: FlowStore, J: RequestJournal>(
    a: Imposter<S, J>,
    b: Imposter<S, J>,
) -> bool {
    &&& b.config == a.config
    &&& b.flow_store == a.flow_store
    &&& b.journal == a.journal
    &&& b.enabled == a.enabled
}

/// Gives each stub a slot of its own.
fn mint(stubs: Vec<Stub>, next_slot: &mut u64) -> (r: Vec<StubState>)
    ensures
        fresh_states(stubs@, r@, *old(next_slot)),
        *final(next_slot) == slot_from(*old(next_slot), stubs@.len()),
{
    let ghost all = stubs@;
    let ghost first = *next_slot;
    let mut left: Vec<Stub> = stubs;
    let mut out: Vec<StubState> = Vec::new();
    while left.len() > 0
        invariant
            left@.len() + out@.len() == all.len(),
            left@ == all.skip(out@.len() as int),
            first == *old(next_slot),
            *next_slot == slot_from(first, out@.len()),
            forall|i: int|
                0 <= i < out@.len() ==> {
                    &&& (#[trigger] out@[i]).stub == all[i]
                    &&& out@[i].slot == slot_from(first, i as nat)
                    &&& out@[i].cycler.index == 0
                    &&& out@[i].cycler.served == 0
                },
        decreases left@.len(),
    {
        let ghost n = out@.len();
        let stub: Stub = left.remove(0);
        let slot: u64 = *next_slot;
        *next_slot = if slot == u64::MAX {
            0
        } else {
            slot + 1
        };
        proof {
            assert(all.skip(n as int)[0] == all[n as int]);
            assert(left@ =~= all.skip(n as int + 1));
        }
        out.push(StubState::new(stub, slot));
    }
    out
}

/// Nothing of an imposter but what its store holds differs.
pub open spec fn same_but_store<S: FlowStore, J: RequestJournal>(
    a: Imposter<S, J>,
    b: Imposter<S, J>,
) -> bool {
    &&& b.config == a.config
    &&& b.next_slot == a.next_slot
    &&& b.warnings == a.warnings
    &&& b.snapshot == a.snapshot
    &&& b.journal == a.journal
    &&& b.enabled == a.enabled
    &&& b.flow_store.keeps() == a.flow_store.keeps()
    &&& b.flow_store.reliable() == a.flow_store.reliable()
}

/// Nothing of an imposter but its journal differs.
pub open spec fn same_but_journal<S: FlowStore, J: RequestJournal>(
    a: Imposter<S, J>,
    b: Imposter<S, J>,
) -> bool {
    &&& b.config == a.config
    &&& b.next_slot == a.next_slot
    &&& b.warnings == a.warnings
    &&& b.snapshot == a.snapshot
    &&& b.flow_store == a.flow_store
    &&& b.enabled == a.enabled
}

/// A value of the store under a scenario's name.
pub open spec fn scenario_value(c: Contents, flow_id: Seq<char>, s: Stub) -> Option<JsonModel> {
    flow_store::held(c, flow_id, matching::scenario_of(s))
}

fn scenario_name_of(s: &Stub) -> (r: &str)
    ensures
        r@ == matching::scenario_of(*s),
{
    match &s.scenario_name {
        Some(n) => n.as_str(),
        None => {
            proof {
                reveal_strlit("");
                assert(""@ =~= Seq::<char>::empty());
            }
            ""
        },
    }
}

/// Moves a stub's scenario on, where the stub says so. One that requires a state moves the scenario
/// out of that state in one step with finding it there: a scenario that another request moved
/// meanwhile is left as it is, which is no error.
pub fn apply_transition<S: FlowStore>(store: &mut S, flow_id: &str, stub: &Stub) -> (r: Result<
    (),
    String,
>)
    ensures
        final(store).keeps() == old(store).keeps(),
        final(store).reliable() == old(store).reliable(),
        old(store).reliable() ==> r is Ok,
        flow_store::others_kept(
            old(store).contents(),
            final(store).contents(),
            flow_id@,
            matching::scenario_of(*stub),
        ),
        stub.new_scenario_state is None ==> r is Ok && *final(store) == *old(store),
        r is Ok && old(store).keeps() ==> scenario_value(final(store).contents(), flow_id@, *stub)
            == state_after(scenario_value(old(store).contents(), flow_id@, *stub), *stub),
{
    let next: &String = match &stub.new_scenario_state {
        Some(n) => n,
        None => {
            return Ok(());
        },
    };
    let scenario: &str = scenario_name_of(stub);
    let required: &String = match &stub.required_scenario_state {
        Some(q) => q,
        None => {
            return store.set(flow_id, scenario, Json::text(next.as_str()));
        },
    };
    let ghost before = flow_store::held(store.contents(), flow_id@, scenario@);
    let expected: Json = Json::text(required.as_str());
    let outcome: CasOutcome = match store.compare_and_set(
        flow_id,
        scenario,
        Some(&expected),
        Json::text(next.as_str()),
    ) {
        Ok(o) => o,
        Err(e) => {
            return Err(e);
        },
    };
    match outcome {
        CasOutcome::Applied => Ok(()),
        CasOutcome::Conflict(current) => {
            if current.is_none() && text::same_text(
                required.as_str(),
                matching::INITIAL_SCENARIO_STATE,
            ) {
                match store.compare_and_set(flow_id, scenario, None, Json::text(next.as_str())) {
                    Ok(_) => Ok(()),
                    Err(e) => Err(e),
                }
            } else {
                Ok(())
            }
        },
    }
}

impl<S: FlowStore, J: RequestJournal> Imposter<S, J> {
    /// The state a scenario is in.
    pub fn scenario_state(&self, flow_id: &str, scenario: &str) -> (r: Result<String, String>)
        ensures
            r is Ok ==> matching::text_result(r) == matching::state_of(
                self.flow_store.contents(),
                flow_id@,
                scenario@,
            ),
            self.flow_store.reliable() ==> matching::text_result(r) == matching::state_of(
                self.flow_store.contents(),
                flow_id@,
                scenario@,
            ),
    {
        matching::read_scenario_state(&self.flow_store, flow_id, scenario)
    }

    /// Puts a scenario in a state. A state that was set is the one that is read.
    pub fn set_scenario_state(&mut self, flow_id: &str, scenario: &str, state: &str) -> (r: Result<
        (),
        String,
    >)
        ensures
            same_but_store(*old(self), *final(self)),
            old(self).flow_store.reliable() ==> r is Ok,
            flow_store::others_kept(
                old(self).flow_store.contents(),
                final(self).flow_store.contents(),
                flow_id@,
                scenario@,
            ),
            r is Ok && old(self).flow_store.keeps() ==> matching::state_of(
                final(self).flow_store.contents(),
                flow_id@,
                scenario@,
            ) == Ok::<Seq<char>, Seq<char>>(state@),
    {
        self.flow_store.set(flow_id, scenario, Json::text(state))
    }

    /// Puts a scenario back in its initial state.
    pub fn delete_scenario_state(&mut self, flow_id: &str, scenario: &str) -> (r: Result<
        (),
        String,
    >)
        ensures
            same_but_store(*old(self), *final(self)),
            old(self).flow_store.reliable() ==> r is Ok,
            flow_store::others_kept(
                old(self).flow_store.contents(),
                final(self).flow_store.contents(),
                flow_id@,
                scenario@,
            ),
            r is Ok && old(self).flow_store.keeps() ==> matching::state_of(
                final(self).flow_store.contents(),
                flow_id@,
                scenario@,
            ) == Ok::<Seq<char>, Seq<char>>(matching::INITIAL_SCENARIO_STATE@),
    {
        self.flow_store.delete(flow_id, scenario)
    }

    /// Moves the scenario of the stub at a position on, where the stub says so.
    pub fn apply_scenario_transition(&mut self, flow_id: &str, at: usize) -> (r: Result<(), String>)
        requires
            old(self).wf(),
            at < old(self).states().len(),
        ensures
            final(self).wf(),
            same_but_store(*old(self), *final(self)),
            old(self).flow_store.reliable() ==> r is Ok,
            ({
                let stub = old(self).states()[at as int].stub;
                let before = old(self).flow_store.contents();
                let after = final(self).flow_store.contents();
                &&& stub.new_scenario_state is None ==> r is Ok && final(self).flow_store == old(
                    self,
                ).flow_store
                &&& flow_store::others_kept(before, after, flow_id@, matching::scenario_of(stub))
                &&& r is Ok && old(self).flow_store.keeps() ==> scenario_value(after, flow_id@, stub)
                    == state_after(scenario_value(before, flow_id@, stub), stub)
            }),
    {
        let stub: &Stub = &self.snapshot.stubs()[at].stub;
        apply_transition(&mut self.flow_store, flow_id, stub)
    }

    /// A value of the store.
    pub fn flow_get(&self, flow_id: &str, key: &str) -> (r: Result<Option<Json>, String>)
        ensures
            self.flow_store.reliable() ==> r is Ok,
            r is Ok ==> flow_store::optional_model(r->Ok_0) == flow_store::held(
                self.flow_store.contents(),
                flow_id@,
                key@,
            ),
    {
        self.flow_store.get(flow_id, key)
    }

    /// Writes a value to the store.
    pub fn flow_set(&mut self, flow_id: &str, key: &str, value: Json) -> (r: Result<(), String>)
        ensures
            same_but_store(*old(self), *final(self)),
            old(self).flow_store.reliable() ==> r is Ok,
            flow_store::others_kept(
                old(self).flow_store.contents(),
                final(self).flow_store.contents(),
                flow_id@,
                key@,
            ),
            r is Ok && old(self).flow_store.keeps() ==> flow_store::held(
                final(self).flow_store.contents(),
                flow_id@,
                key@,
            ) == Some(value.model()),
    {
        self.flow_store.set(flow_id, key, value)
    }

    /// Removes a value from the store.
    pub fn flow_delete(&mut self, flow_id: &str, key: &str) -> (r: Result<(), String>)
        ensures
            same_but_store(*old(self), *final(self)),
            old(self).flow_store.reliable() ==> r is Ok,
            flow_store::others_kept(
                old(self).flow_store.contents(),
                final(self).flow_store.contents(),
                flow_id@,
                key@,
            ),
            r is Ok && old(self).flow_store.keeps() ==> flow_store::held(
                final(self).flow_store.contents(),
                flow_id@,
                key@,
            ) is None,
    {
        self.flow_store.delete(flow_id, key)
    }

    /// Removes every value of a flow from the store.
    pub fn flow_clear(&mut self, flow_id: &str) -> (r: Result<(), String>)
        ensures
            same_but_store(*old(self), *final(self)),
            old(self).flow_store.reliable() ==> r is Ok,
            forall|f: Seq<char>, k: Seq<char>|
                f != flow_id@ ==> #[trigger] flow_store::held(
                    final(self).flow_store.contents(),
                    f,
                    k,
                ) == flow_store::held(old(self).flow_store.contents(), f, k),
            r is Ok && old(self).flow_store.keeps() ==> forall|k: Seq<char>|
                #[trigger] flow_store::held(
                    final(self).flow_store.contents(),
                    flow_id@,
                    k,
                ) is None,
    {
        self.flow_store.clear_flow(flow_id)
    }

    /// The names of the scenarios that stubs name, in order and each once.
    pub fn scenario_names(&self) -> (r: Vec<String>)
        ensures
            ascending(record::texts(r@)),
            forall|t: Seq<char>| #[trigger]
                record::texts(r@).contains(t) <==> scenario_named(self.states(), t),
    {
        scenario_names_of(self.snapshot.stubs())
    }

    /// The positions of the stubs of a space, in order.
    pub fn space_stubs(&self, space: &str) -> (r: Vec<usize>)
        ensures
            r@.len() == within(self.states(), space@).len(),
            forall|i: int| 0 <= i < r@.len() ==> #[trigger] r@[i] == within(self.states(), space@)[i],
    {
        let stubs: &Vec<StubState> = self.snapshot.stubs();
        let ghost all = stubs@;
        let mut out: Vec<usize> = Vec::new();
        let mut i: usize = 0;
        while i < stubs.len()
            invariant
                i <= stubs@.len(),
                all == stubs@,
                out@.len() == within(all.take(i as int), space@).len(),
                forall|k: int|
                    0 <= k < out@.len() ==> #[trigger] out@[k] == within(
                        all.take(i as int),
                        space@,
                    )[k],
            decreases stubs@.len() - i,
        {
            proof {
                assert(all.take(i + 1).drop_last() =~= all.take(i as int));
                assert(all.take(i + 1).last() == all[i as int]);
            }
            if let Some(s) = &stubs[i].stub.space {
                if text::same_text(s.as_str(), space) {
                    out.push(i);
                }
            }
            i += 1;
        }
        proof {
            assert(all.take(all.len() as int) =~= all);
        }
        out
    }

    /// Takes a space down: its stubs go, its recorded requests go, and the scenarios that stubs
    /// named are put back in their initial state there. A part that fails does not keep the
    /// others; the first failure is what is returned.
    pub fn teardown_space(&mut self, space: &str) -> (r: Result<(), String>)
        requires
            old(self).wf(),
        ensures
            final(self).wf(),
            final(self).states() == outside(old(self).states(), space@),
            final(self).next_slot == old(self).next_slot,
            final(self).warnings is None,
            final(self).config == old(self).config,
            final(self).enabled == old(self).enabled,
            old(self).flow_store.reliable() && old(self).journal.erasable(
                port_of(old(self).config),
            ) ==> r is Ok,
            r is Ok || old(self).journal.erasable(port_of(old(self).config))
                ==> final(self).journal.retained(port_of(old(self).config)) == journal::picked(
                old(self).journal.retained(port_of(old(self).config)),
                journal::other_flow(
                    old(self).journal.retained(port_of(old(self).config)),
                    space@,
                ),
            ),
            forall|p: u16|
                p != port_of(old(self).config) ==> #[trigger] final(self).journal.retained(p)
                    == old(self).journal.retained(p),
            forall|p: u16| #[trigger]
                final(self).journal.counted(p) == old(self).journal.counted(p),
            (r is Ok || old(self).flow_store.reliable()) && old(self).flow_store.keeps()
                ==> forall|i: int|
                0 <= i < old(self).states().len() && (
                #[trigger] old(self).states()[i]).stub.scenario_name is Some
                    ==> flow_store::held(
                    final(self).flow_store.contents(),
                    space@,
                    old(self).states()[i].stub.scenario_name->0@,
                ) is None,
            forall|f: Seq<char>, k: Seq<char>|
                f != space@ || !scenario_named(old(self).states(), k)
                    ==> #[trigger] flow_store::held(final(self).flow_store.contents(), f, k)
                    == flow_store::held(old(self).flow_store.contents(), f, k),
    {
        let names: Vec<String> = self.scenario_names();
        let ghost all_names = record::texts(names@);
        let ghost held_before = self.flow_store.contents();
        let mut stubs: Vec<StubState> = self.take_stubs();
        let ghost all = stubs@;
        let mut kept: Vec<StubState> = Vec::new();
        let ghost mut done: int = 0;
        while stubs.len() > 0
            invariant
                0 <= done <= all.len(),
                stubs@ == all.skip(done),
                kept@ == outside(all.take(done), space@),
            decreases stubs@.len(),
        {
            let s: StubState = stubs.remove(0);
            proof {
                assert(all.skip(done)[0] == all[done]);
                assert(stubs@ =~= all.skip(done + 1));
                assert(all.take(done + 1).drop_last() =~= all.take(done));
                assert(all.take(done + 1).last() == all[done]);
                done = done + 1;
            }
            let ours: bool = match &s.stub.space {
                Some(x) => text::same_text(x.as_str(), space),
                None => false,
            };
            if !ours {
                kept.push(s);
            }
        }
        proof {
            assert(done == all.len());
            assert(all.take(done) =~= all);
        }
        self.put_stubs(kept);
        let port: u16 = self.script_state_key();
        let cleared_flow: Result<(), String> = self.journal.clear_flow(port, space);
        let mut first_error: Option<String> = first_failure(None, cleared_flow);
        let ghost cleared = self.journal;
        let ghost kept_states = self.states();
        let ghost snap = self.snapshot;
        let mut i: usize = 0;
        while i < names.len()
            invariant
                i <= names@.len(),
                all_names == record::texts(names@),
                self.wf(),
                self.snapshot == snap,
                self.journal == cleared,
                self.config == old(self).config,
                self.next_slot == old(self).next_slot,
                self.warnings is None,
                self.enabled == old(self).enabled,
                self.flow_store.keeps() == old(self).flow_store.keeps(),
                self.flow_store.reliable() == old(self).flow_store.reliable(),
                old(self).flow_store.reliable() && old(self).journal.erasable(
                    port_of(old(self).config),
                ) ==> first_error is None,
                (first_error is None || self.flow_store.reliable()) && self.flow_store.keeps()
                    ==> forall|k: int|
                    0 <= k < i ==> flow_store::held(
                        self.flow_store.contents(),
                        space@,
                        #[trigger] all_names[k],
                    ) is None,
                ascending(all_names),
                first_error is None || old(self).journal.erasable(port_of(old(self).config))
                    ==> cleared.retained(port_of(old(self).config)) == journal::picked(
                    old(self).journal.retained(port_of(old(self).config)),
                    journal::other_flow(
                        old(self).journal.retained(port_of(old(self).config)),
                        space@,
                    ),
                ),
                forall|f: Seq<char>, k: Seq<char>|
                    f != space@ || !all_names.contains(k) ==> #[trigger] flow_store::held(
                        self.flow_store.contents(),
                        f,
                        k,
                    ) == flow_store::held(held_before, f, k),
            decreases names@.len() - i,
        {
            let ghost was = self.flow_store.contents();
            let done: Result<(), String> = self.flow_delete(space, names[i].as_str());
            proof {
                assert(all_names[i as int] == names@[i as int]@);
                assert(all_names.contains(all_names[i as int]));
                assert forall|f: Seq<char>, k: Seq<char>|
                    f != space@ || !all_names.contains(k) implies #[trigger] flow_store::held(
                    self.flow_store.contents(),
                    f,
                    k,
                ) == flow_store::held(held_before, f, k) by {
                    assert(flow_store::held(was, f, k) == flow_store::held(held_before, f, k));
                }
                if done is Ok && (first_error is None || self.flow_store.reliable())
                    && self.flow_store.keeps() {
                    assert forall|k: int| 0 <= k < i + 1 implies flow_store::held(
                        self.flow_store.contents(),
                        space@,
                        #[trigger] all_names[k],
                    ) is None by {
                        if k < i {
                            assert(flow_store::held(was, space@, all_names[k]) is None);
                            lemma_ascending_apart(all_names, k, i as int);
                        }
                    }
                }
            }
            first_error = first_failure(first_error, done);
            i += 1;
        }
        proof {
            if (first_error is None || self.flow_store.reliable()) && old(
                self,
            ).flow_store.keeps() {
                assert forall|i: int|
                    0 <= i < old(self).states().len() && (
                    #[trigger] old(self).states()[i]).stub.scenario_name is Some implies flow_store::held(
                    self.flow_store.contents(),
                    space@,
                    old(self).states()[i].stub.scenario_name->0@,
                ) is None by {
                    let t = old(self).states()[i].stub.scenario_name->0@;
                    assert(names_scenario(old(self).states()[i], t));
                    assert(all_names.contains(t));
                    let k = choose|k: int| 0 <= k < all_names.len() && all_names[k] == t;
                }
            }
        }
        match first_error {
            Some(e) => Err(e),
            None => Ok(()),
        }
    }
}

/// The first failure of a series, after one more part.
pub fn first_failure(first: Option<String>, part: Result<(), String>) -> (r: Option<String>)
    ensures
        r == (match first {
            Some(e) => Some(e),
            None => match part {
                Err(e) => Some(e),
                Ok(_) => None,
            },
        }),
{
    match first {
        Some(e) => Some(e),
        None => match part {
            Err(e) => Some(e),
            Ok(_) => None,
        },
    }
}

proof fn lemma_ascending_apart(names: Seq<Seq<char>>, a: int, b: int)
    requires
        ascending(names),
        0 <= a < b < names.len(),
    ensures
        names[a] != names[b],
{
    assert(text_before(names[a], names[b]));
    lemma_not_before_itself(vstd::utf8::encode_utf8(names[a]));
}

proof fn lemma_not_before_itself(a: Seq<u8>)
    ensures
        !before(a, a),
    decreases a.len(),
{
    if a.len() > 0 {
        lemma_not_before_itself(a.drop_first());
    }
}

impl<S: FlowStore, J: RequestJournal> Imposter<S, J> {
    /// The port the imposter's requests are recorded under.
    pub fn journal_port(&self) -> (r: u16)
        ensures
            r == port_of(self.config),
    {
        self.script_state_key()
    }

    /// Records a request under its flow, where requests are recorded. Says under which index,
    /// where it was recorded and the journal has stable indices.
    pub fn record_request(&mut self, req: &RecordedRequest) -> (r: Option<u64>)
        requires
            old(self).wf(),
            old(self).config.record_requests ==> old(self).journal.accepts(
                port_of(old(self).config),
            ),
        ensures
            final(self).wf(),
            same_but_journal(*old(self), *final(self)),
            !old(self).config.record_requests ==> r is None && final(self).journal == old(
                self).journal,
            old(self).config.record_requests ==> J::recorded(
                old(self).journal,
                final(self).journal,
                port_of(old(self).config),
                matching::flow_of(
                    source_of(old(self).config),
                    record::header_lines(req.headers@),
                    port_of(old(self).config),
                ),
                req@,
            ),
            r is Some == (old(self).config.record_requests && final(self).journal.indexed(
                port_of(old(self).config),
            ) is Some),
            r is Some ==> journal::newest_is(
                final(self).journal.indexed(port_of(old(self).config)),
                r->0,
                matching::flow_of(
                    source_of(old(self).config),
                    record::header_lines(req.headers@),
                    port_of(old(self).config),
                ),
                req@,
            ),
            forall|p: u16| #[trigger]
                final(self).journal.counted(p) == old(self).journal.counted(p),
            forall|p: u16|
                p != port_of(old(self).config) ==> #[trigger] final(self).journal.retained(p)
                    == old(self).journal.retained(p),
    {
        if !self.config.record_requests {
            return None;
        }
        let flow_id: String = self.resolve_flow_id_recorded(&req.headers);
        let port: u16 = self.journal_port();
        self.journal.record_indexed(port, flow_id.as_str(), req.copy())
    }

    /// The recorded requests, and whether all of the storage could be read.
    pub fn read_recorded_requests(&self) -> (r: JournalRead)
        requires
            self.wf(),
        ensures
            self.journal.readable(port_of(self.config)) ==> r.complete,
            r.complete ==> journal::models(r.entries@) == journal::models(
                journal::requests_of(self.journal.retained(port_of(self.config))),
            ),
    {
        self.journal.read(self.journal_port())
    }

    /// The recorded requests; those that could be read, where not all could.
    pub fn get_recorded_requests(&self) -> (r: Vec<RecordedRequest>)
        requires
            self.wf(),
        ensures
            self.journal.readable(port_of(self.config)) ==> journal::models(r@) == journal::models(
                journal::requests_of(self.journal.retained(port_of(self.config))),
            ),
    {
        self.read_recorded_requests().entries
    }

    /// The recorded requests that pass a test.
    pub fn get_recorded_requests_filtered<K: Fn(&RecordedRequest) -> bool>(&self, keep: K) -> (r:
        JournalRead)
        requires
            self.wf(),
            journal::total(keep),
        ensures
            self.journal.readable(port_of(self.config)) ==> r.complete,
            r.complete ==> journal::read_through(
                keep,
                journal::requests_of(self.journal.retained(port_of(self.config))),
                r.entries@,
            ),
    {
        self.journal.read_filtered(self.journal_port(), keep)
    }

    /// What was recorded after a cursor and passes a test. `None` where the journal has no stable
    /// indices; a [`LocalJournal`] has them.
    pub fn read_recorded_requests_since<K: Fn(&RecordedRequest) -> bool>(
        &self,
        since: Option<u64>,
        keep: K,
    ) -> (r: Option<JournalReadSince>)
        requires
            self.wf(),
            journal::total(keep),
        ensures
            r is Some == self.journal.indexed(port_of(self.config)) is Some,
            r is Some && self.journal.readable(port_of(self.config)) ==> r->0.complete,
            r is Some && r->0.complete ==> {
                &&& journal::read_after(
                    keep,
                    self.journal.indexed(port_of(self.config))->0,
                    journal::cut_of(since),
                    r->0.entries@,
                )
                &&& r->0.next == self.journal.last_given(port_of(self.config))
                &&& r->0.truncated == (since is Some && self.journal.last_evicted(
                    port_of(self.config),
                ) > since->0)
            },
    {
        self.journal.read_since(self.journal_port(), since, keep)
    }

    /// Removes the recorded requests and resets the count.
    pub fn clear_recorded_requests(&mut self) -> (r: Result<(), String>)
        requires
            old(self).wf(),
        ensures
            final(self).wf(),
            same_but_journal(*old(self), *final(self)),
            old(self).journal.erasable(port_of(old(self).config)) ==> r is Ok,
            r is Ok ==> final(self).journal.retained(port_of(old(self).config)).len() == 0
                && final(self).journal.counted(port_of(old(self).config)) == 0,
            forall|p: u16|
                p != port_of(old(self).config) ==> #[trigger] final(self).journal.retained(p)
                    == old(self).journal.retained(p),
            forall|p: u16|
                p != port_of(old(self).config) ==> #[trigger] final(self).journal.counted(p)
                    == old(self).journal.counted(p),
    {
        let port: u16 = self.journal_port();
        self.journal.clear(port)
    }

    /// Keeps the recorded requests that pass a test. The count stays.
    pub fn retain_recorded_requests<K: Fn(&RecordedRequest) -> bool>(&mut self, keep: K)
        requires
            old(self).wf(),
            journal::total(keep),
        ensures
            final(self).wf(),
            same_but_journal(*old(self), *final(self)),
            journal::thinned(
                keep,
                old(self).journal.retained(port_of(old(self).config)),
                final(self).journal.retained(port_of(old(self).config)),
            ),
            forall|p: u16|
                p != port_of(old(self).config) ==> #[trigger] final(self).journal.retained(p)
                    == old(self).journal.retained(p),
            forall|p: u16| #[trigger]
                final(self).journal.counted(p) == old(self).journal.counted(p),
    {
        let port: u16 = self.journal_port();
        self.journal.retain(port, keep)
    }

    /// Counts a request, recorded or not.
    pub fn increment_request_count(&mut self)
        requires
            old(self).wf(),
        ensures
            final(self).wf(),
            same_but_journal(*old(self), *final(self)),
            final(self).journal.counted(port_of(old(self).config)) == (if old(
                self).journal.counted(port_of(old(self).config)) == u64::MAX {
                0
            } else {
                (old(self).journal.counted(port_of(old(self).config)) + 1) as u64
            }),
            forall|p: u16| #[trigger]
                final(self).journal.retained(p) == old(self).journal.retained(p),
    {
        let port: u16 = self.journal_port();
        self.journal.note_request(port)
    }

    /// How many requests came in since the last clear.
    pub fn get_request_count(&self) -> (r: u64)
        requires
            self.wf(),
        ensures
            r == self.journal.counted(port_of(self.config)),
    {
        self.journal.count(self.journal_port())
    }
}

/// A request and its record belong to the same flow: a flow depends on the headers alone.
pub proof fn law_live_and_recorded_flows_agree(
    c: ImposterConfig,
    live: Seq<(String, Vec<String>)>,
    recorded: Seq<(String, Vec<String>)>,
)
    requires
        record::header_lines(live) == record::header_lines(recorded),
    ensures
        matching::flow_of(source_of(c), record::header_lines(live), port_of(c))
            == matching::flow_of(source_of(c), record::header_lines(recorded), port_of(c)),
{
}

/// A stub that requires a state takes part again only once its scenario is back in that state: a
/// move out of it ends the stub's turn.
pub proof fn law_a_move_ends_the_turn(c: Contents, after: Contents, flow_id: Seq<char>, s: Stub)
    requires
        s.required_scenario_state is Some,
        s.new_scenario_state is Some,
        s.new_scenario_state->0@ != s.required_scenario_state->0@,
        s.space is None,
        matching::takes_part(s, flow_id, c) == Ok::<bool, crate::predicate::MatchErrorModel>(true),
        scenario_value(after, flow_id, s) == state_after(scenario_value(c, flow_id, s), s),
    ensures
        matching::state_of(after, flow_id, matching::scenario_of(s)) == Ok::<
            Seq<char>,
            Seq<char>,
        >(s.new_scenario_state->0@),
        matching::takes_part(s, flow_id, after) == Ok::<bool, crate::predicate::MatchErrorModel>(
            false,
        ),
{
}

/// A second request that found the same state as the first does not move the scenario again: the
/// state the first moved it to stays.
pub proof fn law_a_stale_move_is_dropped(current: Option<JsonModel>, s: Stub)
    requires
        s.required_scenario_state is Some,
        s.new_scenario_state is Some,
        s.new_scenario_state->0@ != s.required_scenario_state->0@,
        moves(current, s.required_scenario_state->0@),
    ensures
        state_after(current, s) == Some(JsonModel::Text(s.new_scenario_state->0@)),
        state_after(state_after(current, s), s) == state_after(current, s),
{
}

/// A configured backend is the one that is used: the one in memory with the lifetime it was given,
/// Redis where it is described; and an unknown one, or a Redis that is not described, is an error.
/// Without one, a store in memory is used exactly where a stub takes part in a scenario or may run
/// a script.
pub proof fn law_stores_are_chosen_as_configured(c: ImposterConfig)
    ensures
        c.rift is Some && c.rift->0.flow_state is Some ==> {
            let f = c.rift->0.flow_state->0;
            &&& f.backend@ == "inmemory"@ ==> store_choice(c) == Ok::<FlowStoreChoice, Seq<char>>(
                FlowStoreChoice::InMemory { ttl_seconds: f.ttl_seconds as u64 },
            )
            &&& f.backend@ == "redis"@ && f.redis is Some ==> store_choice(c) == Ok::<
                FlowStoreChoice,
                Seq<char>,
            >(FlowStoreChoice::Redis)
            &&& f.backend@ == "redis"@ && f.redis is None ==> store_choice(c) == Err::<
                FlowStoreChoice,
                Seq<char>,
            >("flowState.backend is \"redis\" but no redis config block was provided"@)
            &&& f.backend@ != "inmemory"@ && f.backend@ != "redis"@ ==> store_choice(c) == Err::<
                FlowStoreChoice,
                Seq<char>,
            >(
                "flowState.backend is \""@ + f.backend@
                    + "\" but no such backend exists (expected \"inmemory\" or \"redis\")"@,
            )
        },
        c.rift is None || c.rift->0.flow_state is None ==> {
            &&& scenario_used(c.stubs@) || script_used(c.stubs@) ==> store_choice(c) == Ok::<
                FlowStoreChoice,
                Seq<char>,
            >(FlowStoreChoice::InMemory { ttl_seconds: 300 })
            &&& !scenario_used(c.stubs@) && !script_used(c.stubs@) ==> store_choice(c) == Ok::<
                FlowStoreChoice,
                Seq<char>,
            >(FlowStoreChoice::NoOp)
        },
{
    reveal_strlit("inmemory");
    reveal_strlit("redis");
    assert("inmemory"@.len() == 8 && "redis"@.len() == 5);
}

/// A stub takes part in a scenario where it names one, requires a state or sets one; and a script
/// may run where a response is one, or has one.
pub proof fn law_scenarios_and_scripts_are_noticed(stubs: Seq<Stub>, i: int, k: int)
    requires
        0 <= i < stubs.len(),
    ensures
        stubs[i].scenario_name is Some ==> scenario_used(stubs),
        stubs[i].required_scenario_state is Some ==> scenario_used(stubs),
        stubs[i].new_scenario_state is Some ==> scenario_used(stubs),
        !scenario_used(stubs) ==> stubs[i].scenario_name is None
            && stubs[i].required_scenario_state is None && stubs[i].new_scenario_state is None,
        (forall|j: int|
            0 <= j < stubs.len() ==> (#[trigger] stubs[j]).scenario_name is None
                && stubs[j].required_scenario_state is None && stubs[j].new_scenario_state is None)
            ==> !scenario_used(stubs),
        0 <= k < stubs[i].responses@.len() ==> (stubs[i].responses@[k] is RiftScript ==> script_used(
            stubs,
        )) && (stubs[i].responses@[k] matches StubResponse::Is {
            is: _,
            behaviors: _,
            rift: Some(x),
        } ==> (x.script is Some ==> script_used(stubs))),
{
    if 0 <= k < stubs[i].responses@.len() && runs_script(stubs[i].responses@[k]) {
        assert(stub_runs_script(stubs[i]));
    }
    if in_scenario(stubs[i]) {
        assert(scenario_used(stubs));
    }
}

/// A stub may fault the connection where a response of its is a fault by a known name, a script, or
/// a fixed response that may meet such a fault; and without such a response it may not.
pub proof fn law_connection_faults_are_noticed(stubs: Seq<StubState>, i: int, k: int)
    requires
        0 <= i < stubs.len(),
        0 <= k < stubs[i].stub.responses@.len(),
    ensures
        ({
            let r = stubs[i].stub.responses@[k];
            &&& r is RiftScript ==> fault_used(stubs)
            &&& r matches StubResponse::Fault { fault: name } ==> (fault::fault_named(name@) is Some
                ==> fault_used(stubs))
            &&& r matches StubResponse::Is { is: _, behaviors: _, rift: Some(x) } ==> (x.fault
                is Some && x.fault->0.tcp is Some && fault::fault_named(
                x.fault->0.tcp->0.kind@,
            ) is Some ==> fault_used(stubs))
            &&& !fault_used(stubs) ==> !may_fault(r)
            &&& r matches StubResponse::Fault { fault: name } ==> (may_fault(r)
                <==> fault::fault_named(name@) is Some)
            &&& r matches StubResponse::Is { is: _, behaviors: _, rift: Some(x) } ==> (may_fault(r)
                <==> x.fault is Some && x.fault->0.tcp is Some && fault::fault_named(
                x.fault->0.tcp->0.kind@,
            ) is Some)
            &&& r is Proxy || r is Inject ==> !may_fault(r)
            &&& r matches StubResponse::Is { is: _, behaviors: _, rift: None } ==> !may_fault(r)
        }),
{
    if may_fault(stubs[i].stub.responses@[k]) {
        assert(stub_may_fault(stubs[i].stub));
    }
}

/// A stub that sets no state leaves its scenario as it is. One that requires none sets its own
/// whatever there was. One that requires a state sets its own exactly where the scenario is in the
/// required one, a scenario without a state being in the one that all start in.
pub proof fn law_scenarios_move_as_stubs_say(current: Option<JsonModel>, s: Stub)
    ensures
        s.new_scenario_state is None ==> state_after(current, s) == current,
        s.new_scenario_state is Some && s.required_scenario_state is None ==> state_after(current, s)
            == Some(JsonModel::Text(s.new_scenario_state->0@)),
        s.new_scenario_state is Some && s.required_scenario_state is Some ==> {
            let required = s.required_scenario_state->0@;
            let next = Some(JsonModel::Text(s.new_scenario_state->0@));
            &&& current == Some(JsonModel::Text(required)) ==> state_after(current, s) == next
            &&& current is None && required == "Started"@ ==> state_after(current, s) == next
            &&& current is None && required != "Started"@ ==> state_after(current, s) is None
            &&& current is Some && current->0 != JsonModel::Text(required) ==> state_after(
                current,
                s,
            ) == current
        },
{
}

/// The flow source is the one that is configured, and the imposter's port where none is; and an
/// imposter that was given no port has the port zero.
pub proof fn law_flow_sources_are_as_configured(c: ImposterConfig)
    ensures
        c.rift is Some && c.rift->0.flow_state is Some && c.rift->0.flow_state->0.flow_id_source
            is Some ==> source_of(c) == c.rift->0.flow_state->0.flow_id_source->0@,
        (c.rift is None || c.rift->0.flow_state is None || c.rift->0.flow_state->0.flow_id_source
            is None) ==> source_of(c) == "imposter_port"@,
        c.port matches Some(p) ==> port_of(c) == p,
        c.port is None ==> port_of(c) == 0,
{
}

/// Taking a space's stubs out takes out exactly those whose space is that very one, and leaves the
/// others in their order: what is left of two lists together is what is left of each.
pub proof fn law_only_a_spaces_own_stubs_go(
    a: Seq<StubState>,
    b: Seq<StubState>,
    space: Seq<char>,
    s: StubState,
)
    ensures
        outside(a + b, space) == outside(a, space) + outside(b, space),
        outside(b, space).contains(s) <==> b.contains(s) && !(s.stub.space is Some
            && s.stub.space->0@ == space),
    decreases b.len(),
{
    if b.len() == 0 {
        assert(a + b =~= a);
        assert(outside(a, space) + outside(b, space) =~= outside(a, space));
        assert(!b.contains(s));
    } else {
        let rest = b.drop_last();
        law_only_a_spaces_own_stubs_go(a, rest, space, s);
        assert((a + b).drop_last() =~= a + rest);
        assert((a + b).last() == b.last());
        assert(outside(a + b, space) =~= outside(a, space) + outside(b, space));
        let last = b.last();
        if rest.contains(s) {
            let i = choose|i: int| 0 <= i < rest.len() && rest[i] == s;
            assert(b[i] == s);
        }
        if b.contains(s) && s != last {
            let i = choose|i: int| 0 <= i < b.len() && b[i] == s;
            assert(rest[i] == s);
        }
        if s == last {
            assert(b[b.len() - 1] == s);
        }
        if !in_space(last.stub, space) {
            let all = outside(b, space);
            let some = outside(rest, space);
            assert(all[some.len() as int] == last);
            if some.contains(s) {
                let i = choose|i: int| 0 <= i < some.len() && some[i] == s;
                assert(all[i] == s);
            }
            if all.contains(s) && s != last {
                let i = choose|i: int| 0 <= i < all.len() && all[i] == s;
                assert(some[i] == s);
            }
        }
    }
}

/// The stubs of a space are those whose space is that very one, by their positions, in order and
/// each once.
pub proof fn law_a_spaces_stubs_are_found(stubs: Seq<StubState>, space: Seq<char>, at: int)
    ensures
        within(stubs, space).contains(at) <==> 0 <= at < stubs.len() && stubs[at].stub.space is Some
            && stubs[at].stub.space->0@ == space,
        forall|i: int, j: int|
            0 <= i < j < within(stubs, space).len() ==> #[trigger] within(stubs, space)[i]
                < #[trigger] within(stubs, space)[j],
        forall|i: int|
            0 <= i < within(stubs, space).len() ==> 0 <= #[trigger] within(stubs, space)[i]
                < stubs.len(),
    decreases stubs.len(),
{
    if stubs.len() > 0 {
        let rest = stubs.drop_last();
        law_a_spaces_stubs_are_found(rest, space, at);
        let some = within(rest, space);
        let all = within(stubs, space);
        let n = stubs.len() - 1;
        if in_space(stubs.last().stub, space) {
            assert(all[some.len() as int] == n);
            if some.contains(at) {
                let i = choose|i: int| 0 <= i < some.len() && some[i] == at;
                assert(all[i] == at);
            }
            if all.contains(at) && at != n {
                let i = choose|i: int| 0 <= i < all.len() && all[i] == at;
                assert(some[i] == at);
            }
        }
        if 0 <= at < n {
            assert(rest[at] == stubs[at]);
        }
    }
}

/// A stub is found by its id, exactly as spelled, and of several with one id the first is.
pub proof fn law_stubs_are_found_by_id(stubs: Seq<StubState>, id: Seq<char>)
    ensures
        position_by_id(stubs, id) matches Some(at) ==> 0 <= at < stubs.len() && stubs[at].stub.id
            is Some && stubs[at].stub.id->0@ == id && forall|i: int|
            0 <= i < at ==> !((#[trigger] stubs[i]).stub.id is Some && stubs[i].stub.id->0@ == id),
        position_by_id(stubs, id) is None ==> forall|i: int|
            0 <= i < stubs.len() ==> !((#[trigger] stubs[i]).stub.id is Some
                && stubs[i].stub.id->0@ == id),
    decreases stubs.len(),
{
    if stubs.len() > 0 && !(stubs[0].stub.id is Some && stubs[0].stub.id->0@ == id) {
        let rest = stubs.drop_first();
        law_stubs_are_found_by_id(rest, id);
        match position_by_id(rest, id) {
            Some(k) => {
                assert forall|i: int| 0 <= i < k + 1 implies !((#[trigger] stubs[i]).stub.id is Some
                    && stubs[i].stub.id->0@ == id) by {
                    if i > 0 {
                        assert(rest[i - 1] == stubs[i]);
                    }
                }
            },
            None => {
                assert forall|i: int| 0 <= i < stubs.len() implies !((#[trigger] stubs[i]).stub.id
                    is Some && stubs[i].stub.id->0@ == id) by {
                    if i > 0 {
                        assert(rest[i - 1] == stubs[i]);
                    }
                }
            },
        }
    }
}

/// A replaced stub has the new content in the old place, slot and turn; no other stub changes.
pub proof fn law_replaced_stubs_keep_their_place(
    before: Seq<StubState>,
    after: Seq<StubState>,
    at: int,
    stub: Stub,
    i: int,
)
    requires
        content_replaced(before, after, at, stub),
        0 <= i < before.len(),
    ensures
        after.len() == before.len(),
        i != at ==> after[i] == before[i],
        i == at ==> after[i].stub == stub && after[i].slot == before[i].slot && after[i].cycler.index
            == before[i].cycler.index && after[i].cycler.served == before[i].cycler.served,
{
}

/// New stubs stand in the order they were given, each with its own content at the start of its
/// cycle.
pub proof fn law_new_stubs_start_their_cycle(
    stubs: Seq<Stub>,
    states: Seq<StubState>,
    first: u64,
    i: int,
)
    requires
        fresh_states(stubs, states, first),
        0 <= i < stubs.len(),
    ensures
        states.len() == stubs.len(),
        states[i].stub == stubs[i],
        states[i].cycler.index == 0 && states[i].cycler.served == 0,
        i == 0 ==> states[i].slot == first,
{
    assert(states[i].stub == stubs[i]);
}

/// Scenario names are ordered by the first byte in which they differ, and a name comes before every
/// longer one that begins with it.
pub proof fn law_the_first_different_byte_orders(
    both: Seq<u8>,
    x: u8,
    y: u8,
    s: Seq<u8>,
    t: Seq<u8>,
)
    ensures
        x != y ==> (before(both + seq![x] + s, both + seq![y] + t) <==> x < y),
        before(both, both + seq![x] + s),
        !before(both + s, both),
    decreases both.len(),
{
    let a = both + seq![x] + s;
    let b = both + seq![y] + t;
    if both.len() == 0 {
        assert(a[0] == x && b[0] == y);
        assert(both + s =~= s);
    } else {
        let rest = both.drop_first();
        law_the_first_different_byte_orders(rest, x, y, s, t);
        assert(a[0] == both[0] && b[0] == both[0] && (both + s)[0] == both[0]);
        assert(a.drop_first() =~= rest + seq![x] + s);
        assert(b.drop_first() =~= rest + seq![y] + t);
        assert((both + s).drop_first() =~= rest + s);
    }
}

/// A scenario is named where some stub names it, exactly as spelled, and only there.
pub proof fn law_scenarios_are_named_by_stubs(stubs: Seq<StubState>, name: Seq<char>, i: int)
    ensures
        0 <= i < stubs.len() && stubs[i].stub.scenario_name is Some
            && stubs[i].stub.scenario_name->0@ == name ==> scenario_named(stubs, name),
        scenario_named(stubs, name) ==> exists|j: int|
            0 <= j < stubs.len() && (#[trigger] stubs[j]).stub.scenario_name is Some
                && stubs[j].stub.scenario_name->0@ == name,
{
    if 0 <= i < stubs.len() && names_scenario(stubs[i], name) {
        assert(scenario_named(stubs, name));
    }
    if scenario_named(stubs, name) {
        let j = choose|j: int| 0 <= j < stubs.len() && names_scenario(#[trigger] stubs[j], name);
        assert(stubs[j].stub.scenario_name is Some);
    }
}

/// Listed names grow strictly, so that none stands twice and each comes before the next.
pub proof fn law_listed_names_grow(names: Seq<Seq<char>>, i: int, j: int)
    requires
        ascending(names),
        0 <= i < j < names.len(),
    ensures
        names[i] != names[j],
        before(vstd::utf8::encode_utf8(names[i]), vstd::utf8::encode_utf8(names[j])),
        !before(vstd::utf8::encode_utf8(names[j]), vstd::utf8::encode_utf8(names[i])),
{
    lemma_ascending_apart(names, i, j);
    let a = vstd::utf8::encode_utf8(names[i]);
    let b = vstd::utf8::encode_utf8(names[j]);
    assert(text_before(names[i], names[j]));
    if before(b, a) {
        lemma_before_transitive(a, b, a);
        lemma_not_before_itself(a);
    }
}

/// What changes the stubs changes nothing of the configuration, the store, the journal or whether
/// the imposter is enabled.
pub proof fn law_changing_stubs_changes_nothing_else<S: FlowStore, J: RequestJournal>(
    a: Imposter<S, J>,
    b: Imposter<S, J>,
)
    requires
        same_but_stubs(a, b),
    ensures
        b.config == a.config,
        b.flow_store == a.flow_store,
        b.journal == a.journal,
        b.enabled == a.enabled,
{
}

/// What changes the store's contents changes nothing of the configuration, the stubs, their slots
/// and warnings, the journal or whether the imposter is enabled; and the store goes on as reliable
/// as it was.
pub proof fn law_changing_state_changes_nothing_else<S: FlowStore, J: RequestJournal>(
    a: Imposter<S, J>,
    b: Imposter<S, J>,
)
    requires
        same_but_store(a, b),
    ensures
        b.config == a.config,
        b.snapshot == a.snapshot,
        b.states() == a.states(),
        b.next_slot == a.next_slot,
        b.warnings == a.warnings,
        b.journal == a.journal,
        b.enabled == a.enabled,
        b.flow_store.keeps() == a.flow_store.keeps(),
        b.flow_store.reliable() == a.flow_store.reliable(),
{
}

/// What changes the journal changes nothing of the configuration, the stubs, their slots and
/// warnings, the store or whether the imposter is enabled.
pub proof fn law_recording_changes_nothing_else<S: FlowStore, J: RequestJournal>(
    a: Imposter<S, J>,
    b: Imposter<S, J>,
)
    requires
        same_but_journal(a, b),
    ensures
        b.config == a.config,
        b.snapshot == a.snapshot,
        b.states() == a.states(),
        b.next_slot == a.next_slot,
        b.warnings == a.warnings,
        b.flow_store == a.flow_store,
        b.enabled == a.enabled,
{
}

/// Slots that are apart are all different, and none of them is the next one to be given out.
pub proof fn law_slots_apart_are_different(states: Seq<StubState>, next: u64, i: int, j: int)
    requires
        slots_apart(states, next),
        0 <= i < states.len(),
        0 <= j < states.len(),
    ensures
        i != j ==> states[i].slot != states[j].slot,
        states[i].slot != next,
{
    assert(states[i].slot < next);
    if i < j {
        assert(states[i].slot != states[j].slot);
    } else if j < i {
        assert(states[j].slot != states[i].slot);
    }
}

} // verus!
