//! Model of a bounded broadcast ring, as used for per-user inboxes and
//! per-connection traffic: senders append, the ring keeps at most
//! `capacity` events, and a receiver that falls behind the retained window
//! observes lag instead of the lost events.

use vstd::prelude::*;

use crate::events::copy_event;
use crate::events::Event;

verus! {

/// Capacity of the per-connection broadcast rings.
pub const CONNECTION_RING_CAPACITY: usize = 100;

/// Capacity of the per-user inbox rings.
pub const USER_INBOX_CAPACITY: usize = 20;

/// A bounded broadcast ring of events. `base` is the global index of the
/// oldest retained event; every event ever sent has a fixed global index.
pub struct EventRing {
    pub buffer: Vec<Event>,
    pub base: u64,
    pub capacity: usize,
}

/// A receiver's position in a ring's global index space.
pub struct RingReceiver {
    pub pos: u64,
}

/// What one receive observes.
pub enum RecvOutcome {
    /// The next event, in order.
    Item(Event),
    /// The receiver fell behind and the contained number of events were
    /// dropped from under it.
    Lagged(u64),
    /// No event is pending.
    Empty,
}

/// The events a ring retains, as mathematical values, oldest first.
pub open spec fn ring_view(r: EventRing) -> Seq<crate::events::EventView> {
    r.buffer@.map_values(|e: Event| e@)
}

/// `post` is `pre` with exactly one more event appended: the ring advanced
/// by `ev`, dropping its oldest retained event if it was full.
pub open spec fn ring_advanced(pre: EventRing, post: EventRing, ev: crate::events::EventView) -> bool {
    &&& post.capacity == pre.capacity
    &&& if pre.buffer@.len() < pre.capacity {
        post.base == pre.base && ring_view(post) == ring_view(pre).push(ev)
    } else {
        post.base == pre.base + 1 && ring_view(post) == ring_view(pre).subrange(
            1,
            pre.buffer@.len() as int,
        ).push(ev)
    }
}

impl EventRing {
    /// Well-formed: the window never exceeds the capacity and the global
    /// index has headroom.
    pub open spec fn wf(&self) -> bool {
        &&& self.capacity >= 1
        &&& self.buffer@.len() <= self.capacity
        &&& self.base + self.buffer@.len() <= u64::MAX
    }

    /// Global index just past the newest event.
    pub open spec fn spec_end(&self) -> int {
        self.base + self.buffer@.len()
    }

    /// An empty ring.
    pub fn new(capacity: usize) -> (r: EventRing)
        requires
            capacity >= 1,
        ensures
            r.wf(),
            r.buffer@ == Seq::<Event>::empty(),
            r.base == 0,
            r.capacity == capacity,
    {
        EventRing { buffer: Vec::new(), base: 0, capacity }
    }

    /// A receiver that will observe every event sent after this call.
    pub fn subscribe(&self) -> (r: RingReceiver)
        requires
            self.wf(),
        ensures
            r.pos == self.spec_end(),
    {
        RingReceiver { pos: self.base + (self.buffer.len() as u64) }
    }

    /// Appends an event. When the ring is full the oldest retained event is
    /// dropped, which slow receivers will observe as lag.
    pub fn send(&mut self, ev: Event)
        requires
            old(self).wf(),
            old(self).spec_end() < u64::MAX,
        ensures
            final(self).wf(),
            final(self).capacity == old(self).capacity,
            final(self).spec_end() == old(self).spec_end() + 1,
            old(self).buffer@.len() < old(self).capacity ==> final(self).base == old(self).base
                && final(self).buffer@ == old(self).buffer@.push(ev),
            old(self).buffer@.len() == old(self).capacity ==> final(self).base == old(self).base
                + 1 && final(self).buffer@ == old(self).buffer@.subrange(
                1,
                old(self).buffer@.len() as int,
            ).push(ev),
    {
        if self.buffer.len() == self.capacity {
            let _ = self.buffer.remove(0);
            self.base = self.base + 1;
            proof {
                assert(self.buffer@ =~= old(self).buffer@.subrange(
                    1,
                    old(self).buffer@.len() as int,
                ));
            }
        }
        self.buffer.push(ev);
    }

    /// One receive: the next event in order, a lag report when the receiver
    /// fell out of the retained window, or nothing.
    pub fn recv(&self, receiver: &mut RingReceiver) -> (r: RecvOutcome)
        requires
            self.wf(),
        ensures
            old(receiver).pos < self.base ==> (r matches RecvOutcome::Lagged(n) && n == self.base
                - old(receiver).pos) && final(receiver).pos == self.base,
            self.base <= old(receiver).pos < self.spec_end() ==> (r matches RecvOutcome::Item(e)
                && e@ == self.buffer@[old(receiver).pos - self.base]@) && final(receiver).pos
                == old(receiver).pos + 1,
            old(receiver).pos >= self.spec_end() ==> r is Empty && final(receiver).pos == old(
                receiver,
            ).pos,
    {
        if receiver.pos < self.base {
            let lag = self.base - receiver.pos;
            receiver.pos = self.base;
            RecvOutcome::Lagged(lag)
        } else if receiver.pos < self.base + (self.buffer.len() as u64) {
            let idx = (receiver.pos - self.base) as usize;
            let ev = copy_event(&self.buffer[idx]);
            receiver.pos = receiver.pos + 1;
            RecvOutcome::Item(ev)
        } else {
            RecvOutcome::Empty
        }
    }
}

/// Index into the buffer from which a receiver at global position `from`
/// still has events to see: clamped into the retained window.
pub open spec fn window_start(ring: EventRing, from: u64) -> int {
    if from <= ring.base {
        0
    } else if from - ring.base >= ring.buffer@.len() {
        ring.buffer@.len() as int
    } else {
        from - ring.base
    }
}

/// The retained events recorded at or after global position `from`, in
/// order: what a session resuming at that position has missed and can
/// still be given.
pub fn events_since(ring: &EventRing, from: u64) -> (r: Vec<Event>)
    requires
        ring.wf(),
    ensures
        r@.len() == ring.buffer@.len() - window_start(*ring, from),
        forall|k: int|
            0 <= k < r@.len() ==> (#[trigger] r@[k])@ == ring.buffer@[window_start(*ring, from)
                + k]@,
{
    let start: usize = if from <= ring.base {
        0
    } else {
        let offset = from - ring.base;
        if offset >= ring.buffer.len() as u64 {
            ring.buffer.len()
        } else {
            offset as usize
        }
    };
    let mut out: Vec<Event> = Vec::new();
    let mut k: usize = start;
    while k < ring.buffer.len()
        invariant
            start <= k <= ring.buffer@.len(),
            start as int == window_start(*ring, from),
            out@.len() == k - start,
            forall|m: int| 0 <= m < out@.len() ==> (#[trigger] out@[m])@ == ring.buffer@[start + m]@,
        decreases ring.buffer@.len() - k,
    {
        out.push(copy_event(&ring.buffer[k]));
        k += 1;
    }
    out
}

} // verus!
