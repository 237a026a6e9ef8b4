//! A bounded FIFO that absorbs input burst.
//!
//! MoQ (and every other object/datagram transport) delivers transport packets in
//! bursts. The jitter buffer holds them until the scheduler releases them on the
//! output byte clock, smoothing the burst into a steady stream. It is bounded: a
//! sustained input rate above the configured bitrate can't grow it without limit,
//! it drops the oldest packet instead, which keeps both latency and memory
//! bounded (the broadcast trade-off: shed the stalest media, hold the clock).

use std::collections::VecDeque;

use vstd::prelude::*;

use crate::arith::larger_count;
use crate::packet::{bytes_of, Packet};

verus! {

/// `queue` with `packet` behind it, the oldest shed if `capacity` were exceeded.
pub open spec fn joined(queue: Seq<Seq<u8>>, capacity: usize, packet: Seq<u8>) -> Seq<Seq<u8>> {
    if queue.len() >= capacity {
        queue.drop_first().push(packet)
    } else {
        queue.push(packet)
    }
}

/// A bounded packet FIFO. See the module docs.
#[derive(Debug)]
pub struct JitterBuffer {
    queue: VecDeque<Packet>,
    capacity: usize,
}

impl JitterBuffer {
    /// The bytes of the packets held, oldest first.
    pub closed spec fn packets(&self) -> Seq<Seq<u8>> {
        bytes_of(self.queue@)
    }

    /// The most packets it may hold.
    pub closed spec fn bound(&self) -> usize {
        self.capacity
    }

    /// There is room for a packet, and never more held than there is room for.
    pub open spec fn wf(&self) -> bool {
        &&& self.bound() >= 1
        &&& self.packets().len() <= self.bound()
    }

    /// Create a buffer holding at most `capacity` packets (clamped to at least 1).
    pub fn new(capacity: usize) -> (r: Self)
        ensures
            r.wf(),
            r.packets() == Seq::<Seq<u8>>::empty(),
            r.bound() == larger_count(capacity, 1),
    {
        JitterBuffer { queue: VecDeque::new(), capacity: larger_count(capacity, 1) }
    }

    /// Raise the capacity to `capacity`, never lowering it.
    ///
    /// The bound is sized from the arrival pattern, which is only learned as the
    /// input arrives, so it moves upward as evidence accumulates. It does not move
    /// back down: the depth the pacer *aims* to hold can fall again when a burst
    /// ages out of the measurement, but shrinking the bound underneath media
    /// already accepted would drop programme to satisfy a revised estimate.
    pub fn grow_to(&mut self, capacity: usize)
        requires
            old(self).wf(),
        ensures
            final(self).wf(),
            final(self).packets() == old(self).packets(),
            final(self).bound() == larger_count(old(self).bound(), larger_count(capacity, 1)),
    {
        self.capacity = larger_count(self.capacity, larger_count(capacity, 1));
    }

    /// Push a packet. Returns `true` if the buffer was full and the oldest packet
    /// was dropped to make room (the caller bumps the drop stat).
    pub fn push(&mut self, packet: Packet) -> (dropped: bool)
        requires
            old(self).wf(),
        ensures
            final(self).wf(),
            final(self).packets() == joined(old(self).packets(), old(self).bound(), packet@),
            final(self).bound() == old(self).bound(),
            dropped == (old(self).packets().len() == old(self).bound()),
    {
        let full: bool = self.queue.len() >= self.capacity;
        if full {
            let _ = self.queue.pop_front();
        }
        self.queue.push_back(packet);
        full
    }

    /// Remove and return the oldest packet, if any.
    pub fn pop(&mut self) -> (packet: Option<Packet>)
        requires
            old(self).wf(),
        ensures
            final(self).wf(),
            final(self).bound() == old(self).bound(),
            match packet {
                None => old(self).packets().len() == 0 && final(self).packets()
                    == old(self).packets(),
                Some(p) => old(self).packets().len() > 0 && p@ == old(self).packets().first()
                    && final(self).packets() == old(self).packets().drop_first(),
            },
    {
        self.queue.pop_front()
    }

    /// Current occupancy in packets.
    pub fn len(&self) -> (n: usize)
        ensures
            n == self.packets().len(),
    {
        self.queue.len()
    }

    /// Whether the buffer is empty.
    pub fn is_empty(&self) -> (r: bool)
        ensures
            r == (self.packets().len() == 0),
    {
        self.queue.len() == 0
    }
}

/// Whatever is pushed, the buffer stays inside its bound, the newest packet is the
/// one just pushed, and what survives of the rest keeps its order.
pub proof fn law_buffer_is_bounded_and_keeps_order(
    queue: Seq<Seq<u8>>,
    capacity: usize,
    packet: Seq<u8>,
)
    requires
        1 <= capacity,
        queue.len() <= capacity,
    ensures
        joined(queue, capacity, packet).len() <= capacity,
        joined(queue, capacity, packet).last() == packet,
        queue.len() < capacity ==> joined(queue, capacity, packet).drop_last() == queue,
        queue.len() == capacity ==> joined(queue, capacity, packet).drop_last()
            == queue.drop_first(),
{
    if queue.len() < capacity {
        assert(joined(queue, capacity, packet).drop_last() =~= queue);
    } else {
        assert(joined(queue, capacity, packet).drop_last() =~= queue.drop_first());
    }
}

} // verus!
