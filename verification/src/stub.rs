//! A stub with its place in the response cycle.

use crate::types::{Stub, StubResponse};
use vstd::prelude::*;

verus! {

/// A place in a stub's response cycle: which response is next, and how often it was served in its
/// current turn.
#[derive(Clone, Copy, Debug, PartialEq, Eq, Structural)]
pub struct RuleCycler {
    pub index: usize,
    pub served: u32,
}

/// How many times in a row a response is served: once where it does not say.
pub open spec fn turns(r: StubResponse) -> int {
    match r.repeat() {
        Some(n) => if n > 1 {
            n as int
        } else {
            1
        },
        None => 1,
    }
}

/// The response whose turn it is. A place past the end wraps round.
pub open spec fn current(c: RuleCycler, responses: Seq<StubResponse>) -> int {
    if responses.len() == 0 {
        0
    } else {
        c.index as int % responses.len() as int
    }
}

/// The place after one more response was served: the same response until its turns are used up,
/// else the next one.
pub open spec fn advanced(c: RuleCycler, responses: Seq<StubResponse>) -> (int, int) {
    let at = current(c, responses);
    if c.served + 1 >= turns(responses[at]) {
        ((at + 1) % responses.len() as int, 0)
    } else {
        (at, c.served + 1)
    }
}

/// A stub, its place in the response cycle, and the token of its slot.
#[derive(Debug)]
pub struct StubState {
    pub stub: Stub,
    pub cycler: RuleCycler,
    /// Identifies the slot: minted where the stub was put in, kept while its content is replaced.
    pub slot: u64,
}

impl StubState {
    /// A stub at the start of its cycle, in a slot of its own.
    #[must_use]
    pub fn new(stub: Stub, slot: u64) -> (s: Self)
        ensures
            s.stub == stub,
            s.slot == slot,
            s.cycler.index == 0,
            s.cycler.served == 0,
    {
        StubState { stub, cycler: RuleCycler { index: 0, served: 0 }, slot }
    }

    /// The position of the response to serve, moving on in the cycle: `None` where there are no
    /// responses.
    pub fn next_position(&mut self) -> (r: Option<usize>)
        ensures
            final(self).stub == old(self).stub,
            final(self).slot == old(self).slot,
            old(self).stub.responses@.len() == 0 ==> r is None && final(self).cycler == old(
                self,
            ).cycler,
            old(self).stub.responses@.len() > 0 ==> {
                &&& r is Some
                &&& r->0 as int == current(old(self).cycler, old(self).stub.responses@)
                &&& r->0 < old(self).stub.responses@.len()
                &&& (final(self).cycler.index as int, final(self).cycler.served as int)
                    == advanced(old(self).cycler, old(self).stub.responses@)
            },
    {
        let n: usize = self.stub.responses.len();
        if n == 0 {
            return None;
        }
        let at: usize = self.cycler.index % n;
        let turns: u32 = match self.stub.responses[at].get_repeat() {
            Some(k) => if k > 1 {
                k
            } else {
                1
            },
            None => 1,
        };
        if self.cycler.served >= turns - 1 {
            self.cycler = RuleCycler { index: (at + 1) % n, served: 0 };
        } else {
            self.cycler = RuleCycler { index: at, served: self.cycler.served + 1 };
        }
        Some(at)
    }

    /// The response to serve, moving on in the cycle: `None` where there are no responses.
    #[must_use]
    pub fn get_next_response(&mut self) -> (r: Option<&StubResponse>)
        ensures
            final(self).stub == old(self).stub,
            final(self).slot == old(self).slot,
            old(self).stub.responses@.len() == 0 ==> r is None && final(self).cycler == old(
                self,
            ).cycler,
            old(self).stub.responses@.len() > 0 ==> {
                &&& r == Some(
                    &old(self).stub.responses@[current(
                        old(self).cycler,
                        old(self).stub.responses@,
                    )],
                )
                &&& (final(self).cycler.index as int, final(self).cycler.served as int)
                    == advanced(old(self).cycler, old(self).stub.responses@)
            },
    {
        match self.next_position() {
            Some(at) => Some(&self.stub.responses[at]),
            None => None,
        }
    }

    /// The response whose turn it is, without moving on.
    #[must_use]
    pub fn peek_response(&self) -> (r: Option<&StubResponse>)
        ensures
            r == (if self.stub.responses@.len() == 0 {
                None
            } else {
                Some(&self.stub.responses@[current(self.cycler, self.stub.responses@)])
            }),
    {
        let n: usize = self.stub.responses.len();
        if n == 0 {
            None
        } else {
            Some(&self.stub.responses[self.cycler.index % n])
        }
    }

    /// This slot with other content: the place in the cycle and the slot token stay.
    #[must_use]
    pub fn with_stub(&self, stub: Stub) -> (s: Self)
        ensures
            s.stub == stub,
            s.cycler == self.cycler,
            s.slot == self.slot,
    {
        StubState { stub, cycler: self.cycler, slot: self.slot }
    }
}

/// A stub with responses always has one whose turn it is.
pub proof fn law_there_is_always_a_next_response(s: StubState)
    requires
        s.stub.responses@.len() > 0,
    ensures
        0 <= current(s.cycler, s.stub.responses@) < s.stub.responses@.len(),
{
}

/// Where no response repeats, responses are served in order and the cycle starts over after the
/// last.
pub proof fn law_responses_are_served_in_order(c: RuleCycler, responses: Seq<StubResponse>)
    requires
        responses.len() > 0,
        c.index < responses.len(),
        turns(responses[c.index as int]) == 1,
    ensures
        current(c, responses) == c.index,
        advanced(c, responses) == ((c.index + 1) % responses.len() as int, 0int),
{
    assert(c.index as int % responses.len() as int == c.index as int) by (nonlinear_arith)
        requires
            0 <= c.index as int,
            (c.index as int) < responses.len() as int,
    ;
}

/// A response is served as many times in a row as it says, and once where it says nothing, or one,
/// or none; only fixed and injected responses say how often.
pub proof fn law_responses_repeat_as_they_say(r: StubResponse, n: u32)
    ensures
        r.repeat() == Some(n) && n >= 1 ==> turns(r) == n,
        r.repeat() == Some(0u32) ==> turns(r) == 1,
        r.repeat() is None ==> turns(r) == 1,
        r matches StubResponse::Is { is: _, behaviors: Some(b), rift: _ } ==> r.repeat() == b.repeat,
        r matches StubResponse::Inject { inject: _, behaviors: Some(b) } ==> r.repeat() == b.repeat,
        r is Proxy || r is Fault || r is RiftScript ==> turns(r) == 1,
{
}

/// A response stays on until its turns are used up, and each time one turn more is; then the next
/// one's turns begin, and behind the last the first's.
pub proof fn law_a_response_stays_on_for_its_turns(c: RuleCycler, responses: Seq<StubResponse>)
    requires
        c.index < responses.len(),
    ensures
        current(c, responses) == c.index,
        c.served + 1 < turns(responses[c.index as int]) ==> advanced(c, responses) == (
            c.index as int,
            c.served as int + 1,
        ),
        c.served + 1 >= turns(responses[c.index as int]) && c.index + 1 < responses.len()
            ==> advanced(c, responses) == (c.index as int + 1, 0int),
        c.served + 1 >= turns(responses[c.index as int]) && c.index + 1 == responses.len()
            ==> advanced(c, responses) == (0int, 0int),
{
    let n = responses.len() as int;
    let i = c.index as int;
    assert(i % n == i) by (nonlinear_arith)
        requires
            0 <= i < n,
    ;
    if i + 1 < n {
        assert((i + 1) % n == i + 1) by (nonlinear_arith)
            requires
                0 <= i + 1 < n,
        ;
    } else {
        assert((i + 1) % n == 0) by (nonlinear_arith)
            requires
                0 < n == i + 1,
        ;
    }
}

/// A place past the end, as responses taken away may leave one, wraps round and is never out of
/// range.
pub proof fn law_places_past_the_end_wrap(c: RuleCycler, responses: Seq<StubResponse>)
    requires
        responses.len() > 0,
    ensures
        0 <= current(c, responses) < responses.len(),
        c.index == responses.len() ==> current(c, responses) == 0,
        0 <= advanced(c, responses).0 < responses.len(),
{
    let n = responses.len() as int;
    assert(n % n == 0) by (nonlinear_arith)
        requires
            0 < n,
    ;
}

} // verus!
