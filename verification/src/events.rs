//! Admin events: what is told to subscribers about imposters and recorded requests.

use crate::record::RecordedRequest;
use vstd::prelude::*;

verus! {

/// What happened to an imposter.
#[derive(Clone, Copy, Debug, PartialEq, Eq, Structural)]
pub enum ImposterAction {
    Created,
    Replaced,
    StubsChanged,
    Deleted,
    AllDeleted,
}

impl ImposterAction {
    /// The action's name in an event.
    pub open spec fn name(self) -> Seq<char> {
        match self {
            ImposterAction::Created => "created"@,
            ImposterAction::Replaced => "replaced"@,
            ImposterAction::StubsChanged => "stubsChanged"@,
            ImposterAction::Deleted => "deleted"@,
            ImposterAction::AllDeleted => "allDeleted"@,
        }
    }

    /// The action's name in an event.
    #[must_use]
    pub fn as_str(self) -> (r: &'static str)
        ensures
            r@ == self.name(),
    {
        match self {
            ImposterAction::Created => "created",
            ImposterAction::Replaced => "replaced",
            ImposterAction::StubsChanged => "stubsChanged",
            ImposterAction::Deleted => "deleted",
            ImposterAction::AllDeleted => "allDeleted",
        }
    }
}

/// An event with its number.
#[derive(Debug)]
pub struct AdminEvent {
    pub seq: u64,
    pub kind: AdminEventKind,
}

/// What an event tells.
#[derive(Debug)]
pub enum AdminEventKind {
    /// Something happened to the imposter on a port, or to all of them.
    Lifecycle { action: ImposterAction, port: Option<u16> },
    /// A request was recorded.
    Request {
        port: u16,
        flow_id: String,
        /// Its index in the journal, where the journal has stable indices.
        index: Option<u64>,
        request: Box<RecordedRequest>,
    },
}

/// The numbering of events, and who listens. Without a listener nothing is numbered.
#[derive(Debug)]
pub struct AdminEventBus {
    seq: u64,
    subscribers: usize,
}

/// The number after `n`.
pub open spec fn successor(n: u64) -> u64 {
    if n == u64::MAX {
        0
    } else {
        (n + 1) as u64
    }
}

impl AdminEventBus {
    /// The number of the last event.
    pub closed spec fn last(&self) -> u64 {
        self.seq
    }

    /// How many listen.
    pub closed spec fn listeners(&self) -> usize {
        self.subscribers
    }

    /// No event yet, and nobody listening.
    #[must_use]
    pub fn new() -> (r: Self)
        ensures
            r.last() == 0,
            r.listeners() == 0,
    {
        AdminEventBus { seq: 0, subscribers: 0 }
    }

    /// The number of the last event, zero before any.
    #[must_use]
    pub fn seq(&self) -> (r: u64)
        ensures
            r == self.last(),
    {
        self.seq
    }

    /// One more listens.
    pub fn subscribe(&mut self)
        requires
            old(self).listeners() < usize::MAX,
        ensures
            final(self).listeners() == old(self).listeners() + 1,
            final(self).last() == old(self).last(),
    {
        self.subscribers = self.subscribers + 1;
    }

    /// One fewer listens.
    pub fn unsubscribe(&mut self)
        ensures
            final(self).listeners() == (if old(self).listeners() == 0 {
                0
            } else {
                old(self).listeners() - 1
            }),
            final(self).last() == old(self).last(),
    {
        if self.subscribers > 0 {
            self.subscribers = self.subscribers - 1;
        }
    }

    /// Whether anybody listens.
    #[must_use]
    pub fn has_subscribers(&self) -> (r: bool)
        ensures
            r == (self.listeners() > 0),
    {
        self.subscribers > 0
    }

    /// The event to send about an imposter: none without a listener.
    pub fn publish_lifecycle(&mut self, action: ImposterAction, port: Option<u16>) -> (r: Option<
        AdminEvent,
    >)
        ensures
            numbered(
                *old(self),
                *final(self),
                r,
                (AdminEventKind::Lifecycle { action, port }),
            ),
    {
        self.publish(AdminEventKind::Lifecycle { action, port })
    }

    /// The event to send about a recorded request: none without a listener.
    pub fn publish_request(
        &mut self,
        port: u16,
        flow_id: String,
        index: Option<u64>,
        request: RecordedRequest,
    ) -> (r: Option<AdminEvent>)
        ensures
            numbered(
                *old(self),
                *final(self),
                r,
                (AdminEventKind::Request { port, flow_id, index, request: Box::new(request) }),
            ),
    {
        self.publish(AdminEventKind::Request { port, flow_id, index, request: Box::new(request) })
    }

    fn publish(&mut self, kind: AdminEventKind) -> (r: Option<AdminEvent>)
        ensures
            numbered(*old(self), *final(self), r, kind),
    {
        if self.subscribers == 0 {
            return None;
        }
        self.seq = if self.seq == u64::MAX {
            0
        } else {
            self.seq + 1
        };
        Some(AdminEvent { seq: self.seq, kind })
    }
}

/// With a listener, the event carries the next number; without one there is no event and no number
/// is used up.
pub open spec fn numbered(
    before: AdminEventBus,
    after: AdminEventBus,
    event: Option<AdminEvent>,
    kind: AdminEventKind,
) -> bool {
    &&& after.listeners() == before.listeners()
    &&& before.listeners() == 0 ==> event is None && after.last() == before.last()
    &&& before.listeners() > 0 ==> {
        &&& event == Some(AdminEvent { seq: successor(before.last()), kind })
        &&& after.last() == successor(before.last())
    }
}

/// Of two events published one after the other, the second has the higher number, short of the
/// numbers' end.
pub proof fn law_later_events_have_higher_numbers(
    first: AdminEventBus,
    second: AdminEventBus,
    third: AdminEventBus,
    a: AdminEvent,
    b: AdminEvent,
)
    requires
        numbered(first, second, Some(a), a.kind),
        numbered(second, third, Some(b), b.kind),
        first.last() < u64::MAX - 1,
    ensures
        a.seq < b.seq,
{
}

/// An event carries the number after the last one, and what it is about; where nobody listens there
/// is none, and the next one is numbered as if it had never been.
pub proof fn law_events_are_numbered_without_gaps(
    before: AdminEventBus,
    after: AdminEventBus,
    event: Option<AdminEvent>,
    kind: AdminEventKind,
)
    requires
        numbered(before, after, event, kind),
        before.last() < u64::MAX,
    ensures
        before.listeners() == 0 <==> event is None,
        event matches Some(e) ==> e.seq == before.last() + 1 && e.kind == kind && after.last()
            == e.seq,
        event is None ==> after.last() == before.last(),
        after.listeners() == before.listeners(),
{
}

} // verus!
