//! Placing packets on the absolute output grid from the stream alone.
//!
//! Packets are accumulated into *runs* - a PCR-bearing packet and everything up
//! to the next one - because a run's length is only known once the closing PCR
//! arrives. The run is then spread evenly between the two slots its PCRs imply,
//! or from the first free slot if the previous run overran, so where a packet
//! lands is a function of the delivered bytes and nothing else. The cost is one
//! PCR interval of look-ahead (~20 ms on a typical mux) inside the release
//! latency the pacer already holds.
//!
//! Content that turns up after its slot has been transmitted is dropped rather
//! than carried forward, so a leg returning from an outage with a backlog behind
//! it rejoins at the current position instead of replaying what its partner has
//! already delivered.

use std::collections::VecDeque;

use vstd::prelude::*;

use crate::arith::{
    beyond, capped, elapsed, larger, larger_count, lasting, low64, saturating_product, together, Nanos,
};
use crate::null_insertion::NULL_PID;
use crate::packet::{bytes_of, is_packet, pid_of, Packet};
use crate::pcr::{
    forward_delta, pcr_distance, pcr_of, ticks_nanos, ticks_to_duration, PCR_DISCONTINUITY_GAP,
    PCR_WRAP_TICKS,
};
use crate::slot::SlotMap;

verus! {

/// The slot after `slot`.
pub open spec fn after_slot(slot: u64) -> u64 {
    capped(slot + 1)
}

/// The slot that packet `i` of a run of `count` would have if nothing were in its
/// way: its even share of the span from `open`.
pub open spec fn even_slot(open: u64, span: u64, count: int, i: int) -> u64 {
    (open + capped(i * span) as int / count) as u64
}

/// The slot of packet `i` of a run: its even share, or the first slot still free
/// if that is later.
pub open spec fn run_slot(open: u64, span: u64, count: int, free: u64, i: int) -> u64
    decreases i,
{
    larger(even_slot(open, span, count, i), free_before(open, span, count, free, i))
}

/// The first free slot once the packets of a run before packet `i` are placed.
pub open spec fn free_before(open: u64, span: u64, count: int, free: u64, i: int) -> u64
    decreases i,
{
    if i <= 0 {
        free
    } else {
        after_slot(
            larger(even_slot(open, span, count, i - 1), free_before(open, span, count, free, i - 1)),
        )
    }
}

/// A run with the slot of each of its packets.
pub open spec fn spread(open: u64, span: u64, free: u64, run: Seq<Seq<u8>>) -> Seq<(u64, Seq<u8>)> {
    Seq::new(
        run.len(),
        |i: int| (run_slot(open, span, run.len() as int, free, i), run[i]),
    )
}

/// The slot and the bytes of each placed packet.
pub open spec fn slotted(placed: Seq<(u64, Packet)>) -> Seq<(u64, Seq<u8>)> {
    placed.map_values(|e: (u64, Packet)| (e.0, e.1@))
}

/// The newest `capacity` of `placed`.
pub open spec fn newest(placed: Seq<(u64, Seq<u8>)>, capacity: usize) -> Seq<(u64, Seq<u8>)> {
    if placed.len() > capacity {
        placed.skip(placed.len() - capacity)
    } else {
        placed
    }
}

/// How many of `placed` did not fit in `capacity`.
pub open spec fn excess(placed: nat, capacity: usize) -> u64 {
    if placed > capacity {
        (placed - capacity) as u64
    } else {
        0
    }
}

/// How many packets at the head of `placed` belong to slots before `slot`.
pub open spec fn overdue(placed: Seq<(u64, Seq<u8>)>, slot: u64) -> nat
    decreases placed.len(),
{
    if placed.len() == 0 || placed[0].0 >= slot {
        0
    } else {
        1 + overdue(placed.drop_first(), slot)
    }
}

/// Whether slots increase along `placed`. Only the last slot that can be counted
/// may repeat.
pub open spec fn in_slot_order(placed: Seq<(u64, Seq<u8>)>) -> bool {
    forall|i: int, j: int|
        0 <= i < j < placed.len() ==> (#[trigger] placed[i]).0 < (#[trigger] placed[j]).0
            || placed[j].0 == u64::MAX
}

/// Where a source PCR lands on the grid.
pub struct Landing {
    /// The offset of the grid from the raw slot mapping from here on.
    pub epoch: int,
    /// The absolute slot.
    pub slot: u64,
    /// Whether it lies beyond the open run because the source went quiet.
    pub after_silence: bool,
}

/// What the grid holds.
#[verifier::ext_equal]
pub struct Placement {
    /// The mapping from PCR to slot.
    pub map: SlotMap,
    /// The run being accumulated: its opening PCR packet, then the rest.
    pub run: Seq<Seq<u8>>,
    /// Source PCR and absolute slot of the packet that opened the run.
    pub open: Option<(u64, u64)>,
    /// When that packet arrived.
    pub open_at: Option<Nanos>,
    /// Placed packets in slot order, awaiting their slot.
    pub placed: Seq<(u64, Seq<u8>)>,
    /// Added to every computed slot.
    pub epoch: int,
    /// Slots spanned by the previous run, and its packets.
    pub last_span: Option<(u64, usize)>,
    /// The lowest slot still free.
    pub next_free: u64,
    /// Runs that carried more packets than their own span had slots for.
    pub overruns: u64,
    /// Furthest placement ever ran past the slot the next PCR asks for.
    pub displacement: u64,
    /// Most packets that may be placed at once.
    pub capacity: usize,
}

impl Placement {
    /// Nothing placed yet, on the grid of `rate`.
    pub open spec fn empty(rate: u64, capacity: usize) -> Placement {
        Placement {
            map: SlotMap { mux_rate_bps: larger(rate, 1) },
            run: Seq::empty(),
            open: None,
            open_at: None,
            placed: Seq::empty(),
            epoch: 0,
            last_span: None,
            next_free: 0,
            overruns: 0,
            displacement: 0,
            capacity: larger_count(capacity, 1),
        }
    }

    /// The bounds inside which the grid keeps itself, and the order of what is
    /// placed on it.
    pub open spec fn wf(self) -> bool {
        &&& self.map.wf()
        &&& 1 <= self.capacity
        &&& self.placed.len() <= self.capacity
        &&& self.open is None ==> self.run.len() == 0
        &&& -0x1_0000_0000_0000_0000 < self.epoch < 0x2_0000_0000_0000_0000
        &&& self.last_span matches Some((_, count)) ==> count >= 1
        &&& forall|i: int| 0 <= i < self.run.len() ==> is_packet(#[trigger] self.run[i])
        &&& forall|i: int| 0 <= i < self.placed.len() ==> is_packet((#[trigger] self.placed[i]).1)
        &&& in_slot_order(self.placed)
        &&& forall|i: int|
            0 <= i < self.placed.len() ==> (#[trigger] self.placed[i]).0 < self.next_free
                || self.next_free == u64::MAX
    }

    /// Whether nothing on the grid, or still to be placed on it, is stuffing.
    pub open spec fn stuffing_free(self) -> bool {
        &&& forall|i: int| 0 <= i < self.run.len() ==> pid_of(#[trigger] self.run[i]) != NULL_PID
        &&& forall|i: int|
            0 <= i < self.placed.len() ==> pid_of((#[trigger] self.placed[i]).1) != NULL_PID
    }

    /// Where a PCR seen `since` after the open run's lands.
    ///
    /// A large forward PCR jump is ambiguous on its own: the source clock may have
    /// moved (a splice or a loop wrap), or it may have carried on while this leg
    /// missed the middle of the stream. Elapsed time tells the two apart. A jump
    /// that matches the silence is a *gap*, and needs no adjustment.
    pub open spec fn landing(self, pcr: u64, since: Nanos) -> Landing {
        let raw = self.map.slot(pcr);
        match self.open {
            None => landed(raw, self.epoch, false),
            Some((open_pcr, open_slot)) => {
                let delta = pcr_distance(open_pcr, pcr);
                let advanced = ticks_nanos(delta as int);
                let jumped = delta == 0 || advanced > PCR_DISCONTINUITY_GAP;
                let missed = delta > 0 && advanced <= lasting(since * 2);
                if jumped && !missed {
                    let count = if self.run.len() == 0 {
                        1
                    } else {
                        self.run.len() as int
                    };
                    landed(raw, capped(open_slot + count) - raw, false)
                } else if raw + self.epoch < open_slot {
                    landed(raw, self.epoch + self.map.slot(PCR_WRAP_TICKS), false)
                } else {
                    landed(raw, self.epoch, jumped)
                }
            },
        }
    }

    /// The open run spread between its own slot and `next_slot`.
    pub open spec fn closed(self, next_slot: u64) -> Placement {
        match self.open {
            Some((_, open_slot)) if self.run.len() > 0 => {
                let count = self.run.len() as int;
                let span = beyond(open_slot, next_slot);
                let free = free_before(open_slot, span, count, self.next_free, count);
                Placement {
                    run: Seq::empty(),
                    placed: newest(
                        self.placed + spread(open_slot, span, self.next_free, self.run),
                        self.capacity,
                    ),
                    last_span: Some((span, count as usize)),
                    next_free: free,
                    overruns: if count > span {
                        capped(self.overruns + 1)
                    } else {
                        self.overruns
                    },
                    displacement: larger(self.displacement, beyond(next_slot, free)),
                    ..self
                }
            },
            _ => self,
        }
    }

    /// How many packets are dropped for want of room when the run is closed.
    pub open spec fn closing_drops(self) -> u64 {
        if self.open is Some {
            excess(self.placed.len() + self.run.len(), self.capacity)
        } else {
            0
        }
    }

    /// The slot at which a run left open by the end of the source ends, at the
    /// previous run's spacing.
    pub open spec fn flush_end(self) -> u64 {
        match self.open {
            None => 0,
            Some((_, open_slot)) => {
                let len = capped(self.run.len() as int);
                let (span, count) = match self.last_span {
                    Some((span, count)) => (span, count as int),
                    None => (
                        len,
                        if len == 0 {
                            1
                        } else {
                            len as int
                        },
                    ),
                };
                let scaled = (capped(span * len) as int / count) as u64;
                capped(open_slot + larger(scaled, len))
            },
        }
    }

    /// The run left open by the end of the source, placed.
    pub open spec fn flushed(self) -> Placement {
        self.closed(self.flush_end())
    }

    /// One input packet accepted at `now`.
    pub open spec fn pushed(self, packet: Seq<u8>, now: Nanos) -> Placement {
        match pcr_of(packet) {
            None => if self.open is None {
                self
            } else {
                Placement { run: self.run.push(packet), ..self }
            },
            Some(pcr) => {
                let landing = self.landing(pcr, self.quiet(now));
                Placement {
                    open: Some((pcr, landing.slot)),
                    open_at: Some(now),
                    run: seq![packet],
                    ..self.ended(landing)
                }
            },
        }
    }

    /// The open run ended by a PCR that landed at `landing`. Content from before a
    /// silence belongs where it was going, not smeared across the gap.
    pub open spec fn ended(self, landing: Landing) -> Placement {
        let moved = Placement { epoch: landing.epoch, ..self };
        if landing.after_silence {
            moved.flushed()
        } else {
            moved.closed(landing.slot)
        }
    }

    /// Time since the open run's PCR arrived.
    pub open spec fn quiet(self, now: Nanos) -> Nanos {
        match self.open_at {
            Some(at) => elapsed(at, now),
            None => 0,
        }
    }

    /// How many packets are dropped when `packet` is accepted: itself before the
    /// first PCR, when there is no grid to place against, otherwise what the run
    /// that it closes pushes out.
    pub open spec fn push_drops(self, packet: Seq<u8>) -> u64 {
        if pcr_of(packet) is Some {
            self.closing_drops()
        } else if self.open is None {
            1
        } else {
            0
        }
    }

    /// The grid once `slot` has been asked for.
    pub open spec fn taken(self, slot: u64) -> Placement {
        let rest = self.placed.skip(overdue(self.placed, slot) as int);
        Placement {
            placed: if rest.len() > 0 && rest[0].0 == slot {
                rest.drop_first()
            } else {
                rest
            },
            ..self
        }
    }

    /// The packet due at `slot`.
    pub open spec fn due_at(self, slot: u64) -> Option<Seq<u8>> {
        let rest = self.placed.skip(overdue(self.placed, slot) as int);
        if rest.len() > 0 && rest[0].0 == slot {
            Some(rest[0].1)
        } else {
            None
        }
    }

    /// The slot of the earliest packet awaiting emission.
    pub open spec fn first(self) -> Option<u64> {
        if self.placed.len() > 0 {
            Some(self.placed.first().0)
        } else {
            None
        }
    }

    /// The newest placed slot: the live edge of what this leg is holding.
    pub open spec fn edge(self) -> Option<u64> {
        if self.placed.len() > 0 {
            Some(self.placed.last().0)
        } else {
            None
        }
    }
}

/// A raw slot on a grid offset by `epoch`, counted in sixty-four bits.
pub open spec fn landed(raw: u64, epoch: int, after_silence: bool) -> Landing {
    let at = if raw + epoch < 0 {
        0
    } else {
        raw + epoch
    };
    Landing { epoch, slot: (at % 0x1_0000_0000_0000_0000) as u64, after_silence }
}

/// Places packets on the absolute output grid from the stream alone. See the
/// module docs.
#[derive(Debug)]
pub struct StreamGrid {
    map: SlotMap,
    run: VecDeque<Packet>,
    open: Option<(u64, u64)>,
    open_at: Option<Nanos>,
    placed: VecDeque<(u64, Packet)>,
    epoch: i128,
    last_span: Option<(u64, usize)>,
    next_free: u64,
    overruns: u64,
    displacement_high_water: u64,
    capacity: usize,
}

impl View for StreamGrid {
    type V = Placement;

    closed spec fn view(&self) -> Placement {
        Placement {
            map: self.map,
            run: bytes_of(self.run@),
            open: self.open,
            open_at: self.open_at,
            placed: slotted(self.placed@),
            epoch: self.epoch as int,
            last_span: self.last_span,
            next_free: self.next_free,
            overruns: self.overruns,
            displacement: self.displacement_high_water,
            capacity: self.capacity,
        }
    }
}

impl StreamGrid {
    /// An empty grid at a locked mux rate, placing at most `capacity` packets.
    pub fn new(mux_rate_bps: u64, capacity: usize) -> (r: Self)
        ensures
            r@ == Placement::empty(mux_rate_bps, capacity),
            r@.wf(),
    {
        StreamGrid {
            map: SlotMap::new(mux_rate_bps),
            run: VecDeque::new(),
            open: None,
            open_at: None,
            placed: VecDeque::new(),
            epoch: 0,
            last_span: None,
            next_free: 0,
            overruns: 0,
            displacement_high_water: 0,
            capacity: larger_count(capacity, 1),
        }
    }

    /// Raise the placement bound to `capacity`, never lowering it.
    pub fn grow_to(&mut self, capacity: usize)
        requires
            old(self)@.wf(),
        ensures
            final(self)@ == (Placement {
                capacity: larger_count(old(self)@.capacity, larger_count(capacity, 1)),
                ..old(self)@
            }),
            final(self)@.wf(),
    {
        self.capacity = larger_count(self.capacity, larger_count(capacity, 1));
    }

    /// The mapping from PCR to slot.
    pub fn map(&self) -> (r: SlotMap)
        ensures
            r == self@.map,
    {
        self.map
    }

    /// Absolute slot for a source PCR seen after `since` of wall time, keeping the
    /// grid monotonic.
    ///
    /// Returns the slot and whether it sits beyond the open run because the
    /// source went quiet, which the caller must not spread that run across.
    fn slot_for(&mut self, pcr: u64, since: Nanos) -> (r: (u64, bool))
        requires
            old(self)@.wf(),
        ensures
            final(self)@ == (Placement { epoch: old(self)@.landing(pcr, since).epoch, ..old(self)@ }),
            final(self)@.wf(),
            r.0 == old(self)@.landing(pcr, since).slot,
            r.1 == old(self)@.landing(pcr, since).after_silence,
    {
        let raw: u64 = self.map.slot_of_pcr(pcr);
        let mut after_silence: bool = false;
        if let Some((open_pcr, open_slot)) = self.open {
            let delta: u64 = forward_delta(open_pcr, pcr);
            let advanced: Nanos = ticks_to_duration(delta);
            let jumped: bool = delta == 0 || advanced > PCR_DISCONTINUITY_GAP;
            // Content cannot arrive from the future: if we have been silent for
            // roughly as long as the stream advanced, we simply missed the middle.
            // The factor is loose because delivery is bursty and the returning
            // packet may sit in a relay buffer before it reaches us.
            let explained_by_silence: bool = delta > 0 && advanced <= together(since, since);
            if jumped && !explained_by_silence {
                // The source clock moved. Continue the grid from where the open run
                // ends: both legs of a pair compute the same continuation, so an
                // aligned pair stays aligned. A leg that joins *after* a splice
                // cannot know it happened, which is a limit of stream clocking.
                let resume_at: u64 = open_slot.saturating_add(
                    larger_count(self.run.len(), 1) as u64,
                );
                self.epoch = (resume_at as i128) - (raw as i128);
            } else if (raw as i128) + self.epoch < (open_slot as i128) {
                // The 33-bit PCR value wrapped; the stream did not.
                self.epoch = self.epoch + (self.map.slots_per_wrap() as i128);
            } else {
                after_silence = jumped;
            }
        }
        let at: i128 = (raw as i128) + self.epoch;
        let slot: u64 = if at < 0 {
            0
        } else {
            low64(at as u128)
        };
        (slot, after_silence)
    }

    /// Accept one input packet. Returns the number of packets dropped for want of
    /// room, so the caller can count them.
    pub fn push(&mut self, packet: Packet, now: Nanos) -> (dropped: u64)
        requires
            old(self)@.wf(),
        ensures
            final(self)@ == old(self)@.pushed(packet@, now),
            final(self)@.wf(),
            dropped == old(self)@.push_drops(packet@),
    {
        let pcr: u64 = match packet.pcr() {
            Some(pcr) => pcr,
            None => {
                // Before the first PCR there is no grid to place against. Buffering
                // these would only let them land in slots chosen by arrival order.
                if self.open.is_none() {
                    return 1;
                }
                self.run.push_back(packet);
                return 0;
            },
        };
        let since: Nanos = match self.open_at {
            Some(at) => elapsed(at, now),
            None => 0,
        };
        let (slot, after_silence) = self.slot_for(pcr, since);
        let dropped: u64 = if after_silence {
            self.flush()
        } else {
            self.close_run(slot)
        };
        self.open = Some((pcr, slot));
        self.open_at = Some(now);
        self.run.clear();
        self.run.push_back(packet);
        dropped
    }

    /// Spread the open run between its own slot and `next_slot`.
    ///
    /// **The assumption this makes is not the same assumption as "the source's PCR
    /// values are correct".** A run is spread across the slot span its two bounding
    /// PCR *values* imply, so the placement is only faithful while the source's PCR
    /// *byte positions* advance with those values - while comparable spans of media
    /// time carry comparable numbers of bytes. A source can hold an exact 25 ms PCR
    /// value grid while emitting the packets that carry it back-to-back, with the
    /// media bytes they label heaped between the clusters.
    ///
    /// A PCR interval can legitimately carry more packets than the mux rate has
    /// slots for - video is not flat, and a groomer is normally provisioned against
    /// the average rate rather than the peak. The excess spills into the slots
    /// after the run instead of being discarded, and later runs start from the
    /// first free slot, so a peak is absorbed by the stuffing that follows it and
    /// the stream catches back up. Placement stays a function of the delivered
    /// packets alone, which is what keeps two legs identical.
    ///
    /// That recovery is what separates the two, so it is measured rather than
    /// assumed. A peak displaces the grid once and the displacement decays; a
    /// source whose positional cadence does not track its value cadence displaces
    /// it further every cycle.
    fn close_run(&mut self, next_slot: u64) -> (dropped: u64)
        requires
            old(self)@.wf(),
        ensures
            final(self)@ == old(self)@.closed(next_slot),
            final(self)@.wf(),
            dropped == old(self)@.closing_drops(),
    {
        let open_slot: u64 = match self.open {
            Some((_, open_slot)) => open_slot,
            None => {
                return 0;
            },
        };
        let count: usize = self.run.len();
        if count == 0 {
            return 0;
        }
        let span: u64 = beyond(open_slot, next_slot);
        self.last_span = Some((span, count));
        if count as u64 > span {
            self.overruns = self.overruns.saturating_add(1);
        }
        let dropped: u64 = self.place_run(open_slot, span, count);
        // Measured against where the *next* PCR asks the grid to be, not against
        // this run's own span, so a run that spills and is then absorbed reads as
        // zero on the following interval instead of accumulating.
        let displacement: u64 = beyond(next_slot, self.next_free);
        self.displacement_high_water = larger(self.displacement_high_water, displacement);
        dropped
    }

    /// Move every packet of the run to its slot, shedding the oldest placed past
    /// the bound.
    fn place_run(&mut self, open_slot: u64, span: u64, count: usize) -> (dropped: u64)
        requires
            old(self)@.wf(),
            old(self)@.run.len() == count,
            count >= 1,
            open_slot + span <= u64::MAX,
        ensures
            final(self)@ == (Placement {
                run: Seq::empty(),
                placed: newest(
                    old(self)@.placed + spread(
                        open_slot,
                        span,
                        old(self)@.next_free,
                        old(self)@.run,
                    ),
                    old(self)@.capacity,
                ),
                next_free: free_before(
                    open_slot,
                    span,
                    count as int,
                    old(self)@.next_free,
                    count as int,
                ),
                ..old(self)@
            }),
            final(self)@.wf(),
            dropped == excess(old(self)@.placed.len() + count as nat, old(self)@.capacity),
    {
        let ghost before = self@;
        let ghost placed = spread(open_slot, span, before.next_free, before.run);
        let mut dropped: u64 = 0;
        let mut index: usize = 0;
        while index < count
            invariant
                index <= count,
                1 <= count,
                open_slot + span <= u64::MAX,
                before.wf(),
                before.run.len() == count,
                placed == spread(open_slot, span, before.next_free, before.run),
                self@.wf(),
                self@ == (Placement {
                    run: before.run.skip(index as int),
                    placed: newest(before.placed + placed.take(index as int), before.capacity),
                    next_free: free_before(
                        open_slot,
                        span,
                        count as int,
                        before.next_free,
                        index as int,
                    ),
                    ..before
                }),
                dropped == excess(before.placed.len() + index as nat, before.capacity),
            decreases count - index,
        {
            proof {
                lemma_even_slot_fits(open_slot, span, count as int, index as int);
                lemma_newest_of_one_more(
                    before.placed + placed.take(index as int),
                    placed[index as int],
                    before.capacity,
                );
                assert(before.placed + placed.take(index + 1) =~= (before.placed + placed.take(
                    index as int,
                )).push(placed[index as int]));
            }
            let share: u64 = saturating_product(index as u64, span) / (count as u64);
            let slot: u64 = larger(open_slot + share, self.next_free);
            self.next_free = slot.saturating_add(1);
            let ghost held = self@;
            assert(held.run[0] == before.run[index as int]);
            if let Some(packet) = self.run.pop_front() {
                assert(bytes_of(self.run@) =~= held.run.drop_first());
                let ghost entry = (slot, packet@);
                assert(entry == placed[index as int]);
                self.placed.push_back((slot, packet));
                assert(slotted(self.placed@) =~= held.placed.push(entry));
                if self.placed.len() > self.capacity {
                    let _ = self.placed.pop_front();
                    assert(slotted(self.placed@) =~= held.placed.push(entry).drop_first());
                    dropped += 1;
                }
            }
            index += 1;
        }
        proof {
            assert(placed.take(count as int) =~= placed);
            assert(before.run.skip(count as int) =~= Seq::<Seq<u8>>::empty());
        }
        dropped
    }

    /// How far placement has run past the source's own PCR grid, at its worst.
    pub fn displacement_high_water(&self) -> (r: u64)
        ensures
            r == self@.displacement,
    {
        self.displacement_high_water
    }

    /// Runs that carried more packets than their own PCR span had slots for.
    pub fn overruns(&self) -> (r: u64)
        ensures
            r == self@.overruns,
    {
        self.overruns
    }

    /// Place a run left open by the end of the source, at the previous run's
    /// spacing. Without this the last PCR interval of every stream is discarded.
    pub fn flush(&mut self) -> (dropped: u64)
        requires
            old(self)@.wf(),
        ensures
            final(self)@ == old(self)@.flushed(),
            final(self)@.wf(),
            dropped == old(self)@.closing_drops(),
    {
        let open_slot: u64 = match self.open {
            Some((_, open_slot)) => open_slot,
            None => {
                return 0;
            },
        };
        let len: usize = self.run.len();
        let (span, count): (u64, usize) = match self.last_span {
            Some(last) => last,
            None => (len as u64, larger_count(len, 1)),
        };
        let scaled: u64 = saturating_product(span, len as u64) / (count as u64);
        let end: u64 = open_slot.saturating_add(larger(scaled, len as u64));
        self.close_run(end)
    }

    /// The packet due at `slot`, and how many were discarded because their slot has
    /// already passed. A late packet is never re-placed: moving it would make its
    /// position a function of the delay rather than of the stream.
    pub fn take(&mut self, slot: u64) -> (r: (Option<Packet>, u64))
        requires
            old(self)@.wf(),
        ensures
            final(self)@ == old(self)@.taken(slot),
            final(self)@.wf(),
            match old(self)@.due_at(slot) {
                Some(packet) => r.0 matches Some(got) && got@ == packet && is_packet(packet),
                None => r.0 is None,
            },
            r.1 == overdue(old(self)@.placed, slot),
    {
        let ghost before = self@;
        let mut late: u64 = 0;
        proof {
            lemma_overdue_is_a_prefix(before.placed, slot);
            assert(before.placed.skip(0) =~= before.placed);
        }
        while self.placed.len() > 0 && self.placed[0].0 < slot
            invariant
                before.wf(),
                late <= overdue(before.placed, slot) <= before.placed.len(),
                self@ == (Placement { placed: before.placed.skip(late as int), ..before }),
                overdue(before.placed, slot) == late + overdue(
                    before.placed.skip(late as int),
                    slot,
                ),
                self@.wf(),
            decreases before.placed.len() - late,
        {
            proof {
                assert(before.placed.skip(late as int).drop_first() =~= before.placed.skip(
                    late + 1,
                ));
            }
            let ghost held = self@.placed;
            let _ = self.placed.pop_front();
            assert(slotted(self.placed@) =~= held.drop_first());
            late += 1;
        }
        if self.placed.len() > 0 && self.placed[0].0 == slot {
            let ghost held = self@.placed;
            let taken: Option<(u64, Packet)> = self.placed.pop_front();
            assert(slotted(self.placed@) =~= held.drop_first());
            match taken {
                Some((_, packet)) => (Some(packet), late),
                None => (None, late),
            }
        } else {
            (None, late)
        }
    }

    /// The slot of the earliest packet awaiting emission.
    pub fn first_slot(&self) -> (r: Option<u64>)
        ensures
            r == self@.first(),
    {
        if self.placed.len() > 0 {
            Some(self.placed[0].0)
        } else {
            None
        }
    }

    /// The newest placed slot: the live edge of what this leg is holding.
    pub fn last_slot(&self) -> (r: Option<u64>)
        ensures
            r == self@.edge(),
    {
        let n: usize = self.placed.len();
        if n > 0 {
            Some(self.placed[n - 1].0)
        } else {
            None
        }
    }

    /// Whether any content is placed and still to be transmitted.
    ///
    /// The run still accumulating does not count. It cannot be placed until its
    /// closing PCR arrives, and if the source has died that PCR is never coming -
    /// counting it would leave the pacer believing it had programme in hand for
    /// as long as it was left running, which is the exact failure stall detection
    /// exists to prevent.
    pub fn has_content(&self) -> (r: bool)
        ensures
            r == (self@.placed.len() > 0),
    {
        self.placed.len() > 0
    }

    /// Packets held, placed or still in the open run.
    pub fn held(&self) -> (r: usize)
        ensures
            r == crate::arith::capped_count(self@.placed.len() + self@.run.len()),
    {
        self.placed.len().saturating_add(self.run.len())
    }
}

/// An even share of a span lies inside it.
proof fn lemma_even_slot_fits(open: u64, span: u64, count: int, i: int)
    requires
        0 <= i < count,
        open + span <= u64::MAX,
    ensures
        0 <= capped(i * span) as int / count <= span,
        even_slot(open, span, count, i) == open + capped(i * span) as int / count,
{
    assert(0 <= i * span <= count * span) by (nonlinear_arith)
        requires
            0 <= i < count,
            span >= 0,
    ;
    let wide = capped(i * span) as int;
    vstd::arithmetic::div_mod::lemma_div_is_ordered(wide, span * count, count);
    vstd::arithmetic::div_mod::lemma_div_pos_is_pos(wide, count);
    crate::arith::lemma_exact_division(span as int, count);
    assert(count * span == span * count) by (nonlinear_arith);
}

/// Keeping the newest of one more packet sheds at most one.
proof fn lemma_newest_of_one_more(placed: Seq<(u64, Seq<u8>)>, entry: (u64, Seq<u8>), capacity: usize)
    requires
        capacity >= 1,
    ensures
        newest(placed.push(entry), capacity) == (if newest(placed, capacity).len() >= capacity {
            newest(placed, capacity).push(entry).drop_first()
        } else {
            newest(placed, capacity).push(entry)
        }),
{
    let kept = newest(placed, capacity);
    if kept.len() >= capacity {
        assert(newest(placed.push(entry), capacity) =~= kept.push(entry).drop_first());
    } else {
        assert(newest(placed.push(entry), capacity) =~= kept.push(entry));
    }
}

/// The overdue packets are the ones before `slot` at the head.
pub proof fn lemma_overdue_is_a_prefix(placed: Seq<(u64, Seq<u8>)>, slot: u64)
    ensures
        overdue(placed, slot) <= placed.len(),
        forall|i: int|
            0 <= i < overdue(placed, slot) ==> (#[trigger] placed[i]).0 < slot,
        overdue(placed, slot) < placed.len() ==> placed[overdue(placed, slot) as int].0 >= slot,
    decreases placed.len(),
{
    if placed.len() > 0 && placed[0].0 < slot {
        let rest = placed.drop_first();
        lemma_overdue_is_a_prefix(rest, slot);
        assert forall|i: int| 0 <= i < overdue(placed, slot) implies (#[trigger] placed[i]).0
            < slot by {
            if i > 0 {
                assert(placed[i] == rest[i - 1]);
            }
        }
    }
}

/// What is not stuffing leaves no stuffing on the grid.
pub proof fn lemma_no_stuffing_comes(grid: Placement, packet: Seq<u8>, now: Nanos, slot: u64)
    requires
        grid.stuffing_free(),
    ensures
        pid_of(packet) != NULL_PID ==> grid.pushed(packet, now).stuffing_free(),
        grid.flushed().stuffing_free(),
        grid.taken(slot).stuffing_free(),
        grid.due_at(slot) matches Some(p) ==> pid_of(p) != NULL_PID,
{
    lemma_overdue_is_a_prefix(grid.placed, slot);
    lemma_no_stuffing_is_placed(grid, grid.flush_end());
    if let Some(pcr) = pcr_of(packet) {
        let landing = grid.landing(pcr, grid.quiet(now));
        let moved = Placement { epoch: landing.epoch, ..grid };
        lemma_no_stuffing_is_placed(moved, landing.slot);
        lemma_no_stuffing_is_placed(moved, moved.flush_end());
    }
}

/// Placing a run puts on the grid what was in the run.
proof fn lemma_no_stuffing_is_placed(grid: Placement, next_slot: u64)
    requires
        grid.stuffing_free(),
    ensures
        grid.closed(next_slot).stuffing_free(),
{
    if grid.open is Some && grid.run.len() > 0 {
        let open = grid.open->Some_0.1;
        let tail = spread(open, beyond(open, next_slot), grid.next_free, grid.run);
        let all = grid.placed + tail;
        assert forall|i: int| 0 <= i < all.len() implies pid_of((#[trigger] all[i]).1)
            != NULL_PID by {
            if i >= grid.placed.len() {
                assert(all[i] == tail[i - grid.placed.len()]);
                assert(tail[i - grid.placed.len()].1 == grid.run[i - grid.placed.len()]);
            } else {
                assert(all[i] == grid.placed[i]);
            }
        }
    }
}

/// With room for a run in its span and nothing left over from the one before, every
/// packet sits at its even share of the span, and the run ends inside it.
pub proof fn law_a_run_with_room_is_spread_evenly(
    open: u64,
    span: u64,
    free: u64,
    count: int,
    i: int,
)
    requires
        1 <= count <= span,
        count * span <= u64::MAX,
        open + span <= u64::MAX,
        free <= open,
        0 <= i <= count,
    ensures
        i < count ==> run_slot(open, span, count, free, i) == open + i * span / count,
        free_before(open, span, count, free, i) <= open + i * span / count,
    decreases i,
{
    let c = count;
    let w = span as int;
    assert(0 <= i * w <= c * w) by (nonlinear_arith)
        requires
            0 <= i <= c,
            w >= 0,
    ;
    vstd::arithmetic::div_mod::lemma_div_pos_is_pos(i * w, c);
    if i < count {
        lemma_even_slot_fits(open, span, count, i);
    }
    if i == 0 {
        assert(0 * w == 0);
        vstd::arithmetic::div_mod::lemma_div_basics(c);
    } else {
        law_a_run_with_room_is_spread_evenly(open, span, free, count, i - 1);
        lemma_even_slot_fits(open, span, count, i - 1);
        // One more share is at least one more slot.
        assert(i * w == (i - 1) * w + w) by (nonlinear_arith);
        assert(0 <= (i - 1) * w) by (nonlinear_arith)
            requires
                1 <= i,
                w >= 0,
        ;
        crate::arith::lemma_exact_division(1, c);
        crate::pcr::lemma_floor_of_sum((i - 1) * w, w, c);
        vstd::arithmetic::div_mod::lemma_div_is_ordered(c, w, c);
    }
}

/// A source that never carries more in an interval than the interval has slots for
/// never displaces the grid.
pub proof fn law_an_even_source_does_not_displace_the_grid(grid: Placement, next_slot: u64)
    requires
        grid.wf(),
        grid.open matches Some((_, slot)) && slot <= next_slot && grid.next_free <= slot
            && grid.run.len() <= next_slot - slot && grid.run.len() * (next_slot - slot)
            <= u64::MAX,
        grid.run.len() > 0,
    ensures
        grid.closed(next_slot).overruns == grid.overruns,
        grid.closed(next_slot).displacement == grid.displacement,
        grid.closed(next_slot).next_free <= next_slot,
{
    let open = grid.open->Some_0.1;
    let span = beyond(open, next_slot);
    let count = grid.run.len() as int;
    law_a_run_with_room_is_spread_evenly(open, span, grid.next_free, count, count);
    assert(count * span == span * count) by (nonlinear_arith);
    crate::arith::lemma_exact_division(span as int, count);
}

/// Whether the step from the open run's PCR to `packet`'s is an ordinary interval
/// of the source clock, neither a repeat nor a jump.
pub open spec fn steps_normally(grid: Placement, packet: Seq<u8>) -> bool {
    match (pcr_of(packet), grid.open) {
        (Some(pcr), Some((open_pcr, _))) => {
            let delta = pcr_distance(open_pcr, pcr);
            delta > 0 && ticks_nanos(delta as int) <= PCR_DISCONTINUITY_GAP
        },
        _ => true,
    }
}

/// Whether the stream alone decides where `packet` lands at `now`: no silence of the leg
/// accounts for a jump of the source clock. A jump that none accounts for is a splice,
/// and so is a repeat.
pub open spec fn reads_plainly(grid: Placement, packet: Seq<u8>, now: Nanos) -> bool {
    pcr_of(packet) matches Some(pcr) ==> grid.landing(pcr, grid.quiet(now)) == grid.landing(pcr, 0)
}

/// Whether the step from the open run's PCR to `packet`'s is a jump or a repeat, and no
/// silence up to `now` accounts for it.
pub open spec fn splices(grid: Placement, packet: Seq<u8>, now: Nanos) -> bool {
    match (pcr_of(packet), grid.open) {
        (Some(pcr), Some((open_pcr, _))) => {
            let delta = pcr_distance(open_pcr, pcr);
            let advanced = ticks_nanos(delta as int);
            ||| delta == 0
            ||| advanced > PCR_DISCONTINUITY_GAP && advanced > lasting(grid.quiet(now) * 2)
        },
        _ => false,
    }
}

/// An ordinary step reads plainly at any time, and so does a splice.
pub proof fn law_steps_and_splices_read_plainly(grid: Placement, packet: Seq<u8>, now: Nanos)
    requires
        steps_normally(grid, packet) || splices(grid, packet, now),
    ensures
        reads_plainly(grid, packet, now),
{
}

/// What a grid holds, without the time at which it came to hold it and without what
/// it has counted.
pub open spec fn timeless(grid: Placement) -> Placement {
    Placement { open_at: None, overruns: 0, displacement: 0, ..grid }
}

/// A grid fed `packets`, the `i`th at `times[i]`.
pub open spec fn fed(grid: Placement, packets: Seq<Seq<u8>>, times: Seq<Nanos>) -> Placement
    decreases packets.len(),
{
    if packets.len() == 0 {
        grid
    } else {
        fed(grid, packets.drop_last(), times.drop_last()).pushed(packets.last(), times.last())
    }
}

/// Whether the stream alone decides where each of `packets` lands.
pub open spec fn streams_plainly(grid: Placement, packets: Seq<Seq<u8>>, times: Seq<Nanos>) -> bool
    decreases packets.len(),
{
    packets.len() > 0 ==> {
        &&& streams_plainly(grid, packets.drop_last(), times.drop_last())
        &&& reads_plainly(
            fed(grid, packets.drop_last(), times.drop_last()),
            packets.last(),
            times.last(),
        )
    }
}

/// When a packet arrives makes no difference to where it, or anything else, is
/// placed.
pub proof fn law_placement_ignores_arrival_time(
    one: Placement,
    other: Placement,
    packet: Seq<u8>,
    at: Nanos,
    later: Nanos,
)
    requires
        timeless(one) == timeless(other),
        reads_plainly(one, packet, at),
        reads_plainly(other, packet, later),
    ensures
        timeless(one.pushed(packet, at)) == timeless(other.pushed(packet, later)),
        one.push_drops(packet) == other.push_drops(packet),
        one.overruns == other.overruns ==> one.pushed(packet, at).overruns == other.pushed(
            packet,
            later,
        ).overruns,
        one.displacement == other.displacement ==> one.pushed(packet, at).displacement
            == other.pushed(packet, later).displacement,
{
    assert(one.open == other.open && one.run == other.run && one.map == other.map);
    assert(one.epoch == other.epoch && one.next_free == other.next_free);
    assert(one.last_span == other.last_span && one.placed == other.placed);
    assert(one.capacity == other.capacity);
    if let Some(pcr) = pcr_of(packet) {
        let a = one.landing(pcr, one.quiet(at));
        let b = other.landing(pcr, other.quiet(later));
        assert(a == b);
        assert(timeless(one.ended(a)) == timeless(other.ended(b)));
    }
}

/// Two legs given the same stream place it identically, whatever the path did to
/// the times at which each received it.
pub proof fn law_placement_is_a_function_of_the_stream(
    one: Placement,
    other: Placement,
    packets: Seq<Seq<u8>>,
    times: Seq<Nanos>,
    others: Seq<Nanos>,
)
    requires
        timeless(one) == timeless(other),
        times.len() == packets.len(),
        others.len() == packets.len(),
        streams_plainly(one, packets, times),
        streams_plainly(other, packets, others),
    ensures
        timeless(fed(one, packets, times)) == timeless(fed(other, packets, others)),
    decreases packets.len(),
{
    if packets.len() > 0 {
        let rest = packets.drop_last();
        law_placement_is_a_function_of_the_stream(
            one,
            other,
            rest,
            times.drop_last(),
            others.drop_last(),
        );
        law_placement_ignores_arrival_time(
            fed(one, rest, times.drop_last()),
            fed(other, rest, others.drop_last()),
            packets.last(),
            times.last(),
            others.last(),
        );
    }
}

/// A leg that joins late lands on the grid of the one already running: from the
/// same open run, with nothing of an earlier one left over on either, the run is placed
/// in the same slots whatever each leg placed before it, and leaves the same slot free.
pub proof fn law_a_late_leg_lands_on_the_running_grid(
    running: Placement,
    joined: Placement,
    next_slot: u64,
)
    requires
        running.open == joined.open,
        running.run == joined.run,
        running.run.len() > 0,
        running.open matches Some((_, slot)) && running.next_free <= slot && joined.next_free
            <= slot,
    ensures
        ({
            let open = running.open->Some_0.1;
            let span = beyond(open, next_slot);
            spread(open, span, running.next_free, running.run) == spread(
                open,
                span,
                joined.next_free,
                joined.run,
            )
        }),
        running.closed(next_slot).next_free == joined.closed(next_slot).next_free,
        running.closed(next_slot).last_span == joined.closed(next_slot).last_span,
{
    let open = running.open->Some_0.1;
    let span = beyond(open, next_slot);
    let count = running.run.len() as int;
    assert forall|i: int| 0 <= i < count implies spread(open, span, running.next_free, running.run)[
        i
    ] == spread(open, span, joined.next_free, joined.run)[i] by {
        lemma_free_slots_agree(open, span, count, running.next_free, joined.next_free, i);
    }
    assert(spread(open, span, running.next_free, running.run) =~= spread(
        open,
        span,
        joined.next_free,
        joined.run,
    ));
    lemma_free_slots_agree(open, span, count, running.next_free, joined.next_free, count);
}

/// Where a run starts at or after the first free slot, which slot that was makes no
/// difference.
proof fn lemma_free_slots_agree(open: u64, span: u64, count: int, free: u64, other: u64, i: int)
    requires
        0 <= i <= count,
        count >= 1,
        free <= open,
        other <= open,
    ensures
        i >= 1 ==> free_before(open, span, count, free, i) == free_before(
            open,
            span,
            count,
            other,
            i,
        ),
        i < count ==> run_slot(open, span, count, free, i) == run_slot(
            open,
            span,
            count,
            other,
            i,
        ),
    decreases i,
{
    if i == 0 {
        assert(capped(0 * span) as int / count == 0) by {
            vstd::arithmetic::div_mod::lemma_div_basics(count);
        }
    } else {
        lemma_free_slots_agree(open, span, count, free, other, i - 1);
    }
}

/// A leg off the air for as long as the stream moved on comes back onto the grid:
/// its PCR lands on the slot the mapping gives it, not on a continuation of what
/// it held before the outage.
pub proof fn law_an_outage_is_not_a_splice(grid: Placement, pcr: u64, since: Nanos)
    requires
        grid.wf(),
        grid.open matches Some((open_pcr, slot)) && pcr_distance(open_pcr, pcr) > 0 && ticks_nanos(
            pcr_distance(open_pcr, pcr) as int,
        ) <= lasting(since * 2) && grid.map.slot(pcr) + grid.epoch >= slot,
    ensures
        grid.landing(pcr, since).epoch == grid.epoch,
        grid.landing(pcr, since) == landed(
            grid.map.slot(pcr),
            grid.epoch,
            grid.landing(pcr, since).after_silence,
        ),
{
}

/// A packet whose slot has passed is dropped and never placed anew: asking for a
/// slot leaves the packets of later slots exactly as they were.
pub proof fn law_late_packets_are_never_replaced(grid: Placement, slot: u64)
    requires
        grid.wf(),
    ensures
        forall|i: int|
            0 <= i < grid.taken(slot).placed.len() ==> #[trigger] grid.taken(slot).placed[i]
                == grid.placed[i + grid.placed.len() - grid.taken(slot).placed.len()],
        grid.due_at(slot) matches Some(p) ==> grid.placed.contains((slot, p)),
        slot < u64::MAX ==> forall|i: int|
            0 <= i < grid.taken(slot).placed.len() ==> (#[trigger] grid.taken(slot).placed[i]).0
                > slot,
{
    lemma_overdue_is_a_prefix(grid.placed, slot);
    let late = overdue(grid.placed, slot) as int;
    if grid.due_at(slot) is Some {
        assert(grid.placed[late] == grid.placed.skip(late)[0]);
    }
}

/// Whether `longer` is `placed` with later slots behind it.
pub open spec fn extends(placed: Seq<(u64, Seq<u8>)>, longer: Seq<(u64, Seq<u8>)>, from: u64) -> bool {
    &&& placed.len() <= longer.len()
    &&& longer.take(placed.len() as int) == placed
    &&& forall|i: int| placed.len() <= i < longer.len() ==> (#[trigger] longer[i]).0 >= from
}

/// Every slot of a run lies at or after the first free one.
proof fn lemma_run_starts_free(open: u64, span: u64, count: int, free: u64, i: int)
    requires
        0 <= i,
    ensures
        free_before(open, span, count, free, i) >= free,
        run_slot(open, span, count, free, i) >= free,
    decreases i,
{
    if i > 0 {
        lemma_run_starts_free(open, span, count, free, i - 1);
    }
}

/// What arrives later does not change what an earlier slot holds: with room on the
/// grid, a packet taken on after slot `slot` was settled leaves what is due there as
/// it was.
pub proof fn law_later_input_leaves_earlier_slots_alone(
    grid: Placement,
    packet: Seq<u8>,
    now: Nanos,
    slot: u64,
)
    requires
        grid.wf(),
        slot < grid.next_free,
        grid.placed.len() + grid.run.len() <= grid.capacity,
    ensures
        grid.pushed(packet, now).due_at(slot) == grid.due_at(slot),
        overdue(grid.pushed(packet, now).placed, slot) == overdue(grid.placed, slot),
{
    let after = grid.pushed(packet, now);
    if let Some(pcr) = pcr_of(packet) {
        let landing = grid.landing(pcr, grid.quiet(now));
        let moved = Placement { epoch: landing.epoch, ..grid };
        let next = if landing.after_silence {
            moved.flush_end()
        } else {
            landing.slot
        };
        assert(after.placed == moved.closed(next).placed);
        if grid.open is Some && grid.run.len() > 0 {
            let open = grid.open->Some_0.1;
            let span = beyond(open, next);
            let tail = spread(open, span, grid.next_free, grid.run);
            assert forall|i: int| 0 <= i < tail.len() implies (#[trigger] tail[i]).0
                >= grid.next_free by {
                lemma_run_starts_free(open, span, grid.run.len() as int, grid.next_free, i);
            }
            assert(after.placed == grid.placed + tail);
            assert(after.placed.take(grid.placed.len() as int) =~= grid.placed);
        } else {
            assert(after.placed.take(grid.placed.len() as int) =~= grid.placed);
        }
    } else {
        assert(after.placed.take(grid.placed.len() as int) =~= grid.placed);
    }
    assert(extends(grid.placed, after.placed, grid.next_free));
    lemma_extension_keeps_overdue(grid.placed, after.placed, grid.next_free, slot);
    lemma_overdue_is_a_prefix(grid.placed, slot);
    let k = overdue(grid.placed, slot) as int;
    if k < grid.placed.len() {
        assert(after.placed[k] == after.placed.take(grid.placed.len() as int)[k]);
        assert(after.placed.skip(k)[0] == after.placed[k]);
        assert(grid.placed.skip(k)[0] == grid.placed[k]);
    } else if k < after.placed.len() {
        assert(after.placed.skip(k)[0] == after.placed[k]);
    }
}

/// Later slots behind do not change how many packets are overdue.
pub proof fn lemma_extension_keeps_overdue(
    placed: Seq<(u64, Seq<u8>)>,
    longer: Seq<(u64, Seq<u8>)>,
    from: u64,
    slot: u64,
)
    requires
        extends(placed, longer, from),
        slot < from,
    ensures
        overdue(longer, slot) == overdue(placed, slot),
    decreases placed.len(),
{
    if placed.len() > 0 {
        assert(longer[0] == longer.take(placed.len() as int)[0]);
        if placed[0].0 < slot {
            let (a, b) = (placed.drop_first(), longer.drop_first());
            assert(b.take(a.len() as int) =~= a) by {
                assert forall|i: int| 0 <= i < a.len() implies b.take(a.len() as int)[i]
                    == a[i] by {
                    assert(longer.take(placed.len() as int)[i + 1] == placed[i + 1]);
                }
            }
            assert forall|i: int| a.len() <= i < b.len() implies (#[trigger] b[i]).0 >= from by {
                assert(b[i] == longer[i + 1]);
            }
            lemma_extension_keeps_overdue(a, b, from, slot);
        }
    }
}

} // verus!
