//! Fan-out notification of table changes. The bus keeps a bounded
//! backlog per subscriber position: a subscriber that falls more than
//! `capacity` events behind is told so (`Lagged`) instead of silently
//! losing its place in the order. Events are fire-and-forget: with
//! nobody subscribed a publish is simply dropped. The waiting itself
//! (suspending a long-poll until the next publish or a timeout) happens
//! outside the library; the library decides what each poll returns.

use vstd::prelude::*;
use crate::table::Item;

verus! {

/// Backlog retained for a slow subscriber before it is told it lagged.
pub const EVENT_BACKLOG: usize = 16;

/// One change notification: a snapshot of the item a mutation updated.
#[derive(Debug, Clone, PartialEq)]
pub struct ServerEvent {
    pub updated_item: Item,
}

impl ServerEvent {
    /// An exact copy; unlike a derived clone, its contract says so.
    pub fn duplicate(&self) -> (r: ServerEvent)
        ensures
            r == *self,
    {
        ServerEvent { updated_item: self.updated_item.duplicate() }
    }
}

/// Query parameters of a poll request: with `initial_event` present the
/// caller wants the full table snapshot instead of waiting for a change.
#[derive(Debug)]
pub struct InitialQueryParams {
    pub initial_event: Option<String>,
}

/// The caller asked for the full snapshot rather than a long poll.
pub fn wants_snapshot(q: &InitialQueryParams) -> (r: bool)
    ensures
        r == (q.initial_event is Some),
{
    q.initial_event.is_some()
}

/// The abstract state of the bus: the retained tail of the publish log,
/// the number of publishes so far, and the backlog bound.
pub struct BusState {
    pub retained: Seq<ServerEvent>,
    pub next_seq: int,
    pub capacity: int,
}

/// The bus: a bounded buffer of the most recent events plus the publish
/// count. A subscriber is just a cursor into the publish sequence.
pub struct EventBus {
    buffer: Vec<ServerEvent>,
    next_seq: u64,
    capacity: usize,
}

impl View for EventBus {
    type V = BusState;

    closed spec fn view(&self) -> BusState {
        BusState {
            retained: self.buffer@,
            next_seq: self.next_seq as int,
            capacity: self.capacity as int,
        }
    }
}

/// Bus invariant: a positive bound, and the retained tail never exceeds
/// the bound nor the number of publishes.
pub open spec fn bus_wf(v: BusState) -> bool {
    &&& 1 <= v.capacity
    &&& v.retained.len() <= v.capacity
    &&& v.retained.len() <= v.next_seq
}

/// A publish appends the event, dropping the oldest retained event when
/// the backlog is full.
pub open spec fn spec_publish(v: BusState, e: ServerEvent) -> BusState {
    let trimmed = if v.retained.len() == v.capacity {
        v.retained.drop_first()
    } else {
        v.retained
    };
    BusState { retained: trimmed.push(e), next_seq: v.next_seq + 1, capacity: v.capacity }
}

/// What one poll at cursor `c` returns, and the cursor afterwards:
/// nothing new yet; or the backlog was outrun (the cursor resnaps to the
/// oldest retained event); or the next event in publish order.
pub open spec fn spec_poll(v: BusState, c: int) -> (PollResult, int) {
    if c >= v.next_seq {
        (PollResult::Pending, c)
    } else if v.next_seq - c > v.retained.len() {
        (PollResult::Lagged, v.next_seq - v.retained.len())
    } else {
        (PollResult::Event(v.retained[v.retained.len() - (v.next_seq - c)]), c + 1)
    }
}

/// What a single poll yielded. `Pending` means no event is available
/// yet: the caller may keep waiting until its timeout elapses.
#[derive(Debug, Clone, PartialEq)]
pub enum PollResult {
    Event(ServerEvent),
    Pending,
    Lagged,
}

/// A subscriber's position in the publish sequence.
#[derive(Debug, Clone, Copy, PartialEq, Eq, Structural)]
pub struct Subscription {
    pub cursor: u64,
}

impl EventBus {
    pub fn new(capacity: usize) -> (r: EventBus)
        requires
            capacity >= 1,
        ensures
            r@.retained == Seq::<ServerEvent>::empty(),
            r@.next_seq == 0,
            r@.capacity == capacity as int,
            bus_wf(r@),
    {
        EventBus { buffer: Vec::new(), next_seq: 0, capacity }
    }

    /// Broadcast an event: every current subscriber will see it (or a
    /// `Lagged` signal), and no future subscriber will.
    pub fn publish(&mut self, e: ServerEvent)
        requires
            bus_wf(old(self)@),
            old(self)@.next_seq < u64::MAX,
        ensures
            final(self)@ == spec_publish(old(self)@, e),
            bus_wf(final(self)@),
    {
        if self.buffer.len() == self.capacity {
            self.buffer.remove(0);
            proof {
                assert(self.buffer@ =~= old(self).buffer@.drop_first());
            }
        }
        self.buffer.push(e);
        self.next_seq = self.next_seq + 1;
    }

    /// A fresh subscriber starts at the current end of the publish
    /// sequence: it sees only what is published after this call.
    pub fn subscribe(&self) -> (r: Subscription)
        ensures
            r.cursor as int == self@.next_seq,
    {
        Subscription { cursor: self.next_seq }
    }

    /// Advance the subscriber by one poll step.
    pub fn poll(&self, sub: &mut Subscription) -> (r: PollResult)
        requires
            bus_wf(self@),
        ensures
            r == spec_poll(self@, old(sub).cursor as int).0,
            final(sub).cursor as int == spec_poll(self@, old(sub).cursor as int).1,
    {
        if sub.cursor >= self.next_seq {
            PollResult::Pending
        } else {
            let behind = self.next_seq - sub.cursor;
            let len = self.buffer.len();
            if behind > len as u64 {
                sub.cursor = self.next_seq - len as u64;
                PollResult::Lagged
            } else {
                let idx = len - behind as usize;
                let ev = self.buffer[idx].duplicate();
                sub.cursor = sub.cursor + 1;
                PollResult::Event(ev)
            }
        }
    }
}

/// A consumer that is caught up (for instance freshly subscribed) when
/// an event is published is handed exactly that event by its next poll.
pub proof fn lemma_publish_delivered(v: BusState, c: int, e: ServerEvent)
    requires
        bus_wf(v),
        c == v.next_seq,
    ensures
        spec_poll(spec_publish(v, e), c).0 == PollResult::Event(e),
        spec_poll(spec_publish(v, e), c).1 == c + 1,
{
    let v2 = spec_publish(v, e);
    assert(v2.retained.last() == e);
    assert(v2.next_seq - c == 1);
    assert(v2.retained.len() >= 1);
}

/// An event published before a consumer subscribes is never delivered to
/// that consumer: its first poll still finds nothing new.
pub proof fn lemma_no_retroactive_delivery(v: BusState, e: ServerEvent)
    requires
        bus_wf(v),
    ensures
        spec_poll(spec_publish(v, e), spec_publish(v, e).next_seq).0 == PollResult::Pending,
{
}

/// The backlog bound is tight: a subscriber strictly less than
/// `capacity` events behind, none of which have been dropped yet, is
/// still within the retained tail after one more publish — its next
/// poll yields an event, never `Lagged`.
pub proof fn lemma_backlog_guarantee(v: BusState, c: int, e: ServerEvent)
    requires
        bus_wf(v),
        c <= v.next_seq,
        v.next_seq - c < v.capacity,
        v.retained.len() >= v.next_seq - c,
    ensures
        ({
            let v2 = spec_publish(v, e);
            &&& v2.next_seq - c <= v2.retained.len()
            &&& spec_poll(v2, c).0 matches PollResult::Event(ev)
        }),
{
}

/// Polls deliver events in publish order: a consumer within the backlog
/// that polls twice sees two consecutively published events.
pub proof fn lemma_poll_in_order(v: BusState, c: int)
    requires
        bus_wf(v),
        c < v.next_seq,
        v.next_seq - c <= v.retained.len(),
    ensures
        ({
            let (r1, c1) = spec_poll(v, c);
            r1 == PollResult::Event(v.retained[v.retained.len() - (v.next_seq - c)]) && c1 == c
                + 1
        }),
        c + 1 < v.next_seq ==> spec_poll(v, c + 1).0 == PollResult::Event(
            v.retained[v.retained.len() - (v.next_seq - c) + 1],
        ),
{
}

} // verus!
