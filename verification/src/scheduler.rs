//! The deterministic constant-bitrate scheduler: the heart of the pacer.
//!
//! This is a pure, synchronous state machine with no I/O and no timers. It runs two
//! clocks:
//!
//! - a **transport byte clock** at the configured mux rate. Output packet `n` is
//!   due at `anchor + n * 188 * 8 / bitrate`, so the wire rate is exactly
//!   constant. This clock also byte-locks the regenerated PCR.
//! - a **media clock** recovered from the source PCR. Content packets are
//!   released at the source's own media rate (estimated from PCR deltas), delayed
//!   by the configured latency, so the output preserves the source duration
//!   instead of draining a burst faster than real time. The rate is a feed-forward
//!   term only: release is closed-loop on buffer occupancy, because a feed that
//!   runs permanently cannot afford to integrate the error in an estimate. See
//!   [`MediaClock`].
//!
//! Every output slot emits a content packet when the media clock says one is due
//! and the buffer has it, otherwise a null packet - except that a slot falling on
//! a PCR deadline is taken for the PCR whatever else wanted it, the content it
//! displaced waiting one slot. So a burst is absorbed by the [`JitterBuffer`] and
//! released at media rate, the wire stays CBR, and the repetition limit is held
//! independently of both. That last independence is the point: on a media-aware
//! source there is no spare slot inside a burst, and a PCR that waits for one
//! waits for the frame.
//!
//! How much burst it can absorb is the one thing that differs by two orders of
//! magnitude between data planes, so under [`Latency::Adaptive`] the depths are
//! not configured but measured: an [`ArrivalProfile`] reports how far ahead of
//! real time the input delivers, and the cushion, the hard cap and the stall
//! timeout all follow from it. That also moves the decision to start emitting off
//! a timer and onto content, because a cushion cannot be sized against a burst
//! whose size is not yet known - and starting mid-burst on a segmented input is
//! what makes an ordinary inter-segment gap look like an underrun.
//!
//! It also tracks *content liveness* ([`SourceState`]), because stuffing to hold
//! a rate is the right answer to a late source and the wrong answer to an absent
//! one. Past the stall timeout the scheduler stops claiming a clock it no longer
//! has - no PCR is inserted into a stream with no content in it - and the driver
//! applies [`StallPolicy`](crate::StallPolicy).

use std::collections::VecDeque;

use vstd::prelude::*;

use crate::arith::{
    beyond, cap, ceil_div, elapsed, floor_to, larger, larger_count, lemma_product_bound, product,
    rounded_up, together, whole_millis, Nanos, Ratio, NANOS_PER_SEC,
};
use crate::arrival::ArrivalProfile;
use crate::config::{Clocking, Config, Latency, PcrMode, Stall, DEFAULT_AUTO_FALLBACK};
use crate::jitter_buffer::JitterBuffer;
use crate::media_clock::{MediaClock, RateSample};
use crate::null_insertion::{is_content, null_bytes, null_packet, pcr_only_packet, NULL_PID};
use crate::observe::SourceState;
use crate::output::Framing;
use crate::packet::{bytes_of, pid_of, Packet};
use crate::pcr::{pcr_of, PcrRegen, PACKET_BITS, SYNC_BYTE, TS_PACKET_SIZE};
use crate::schedule::{packets_for, time_for, State};
use crate::stats::Stats;
use crate::stream_grid::{lemma_no_stuffing_comes, StreamGrid};

verus! {

/// The CBR scheduler. See the module docs.
#[derive(Debug)]
pub struct Scheduler {
    mux_rate_bps: u64,
    /// How the depths are decided: pinned, or measured from arrival.
    latency: Latency,
    /// The cushion currently in force, from [`Latency::target`].
    target: Nanos,
    /// What the input's arrival pattern has been observed to be, and so what the
    /// depths are sized against under [`Latency::Adaptive`].
    profile: ArrivalProfile,
    packets_per_datagram: usize,
    buffer: JitterBuffer,
    media: MediaClock,
    pcr_regen: Option<PcrRegen>,
    null: [u8; TS_PACKET_SIZE],
    /// PCR PID, learned from the first PCR-bearing packet.
    pcr_pid: Option<u16>,
    /// Continuity counter last seen on the PCR PID, for re-inserted packets.
    pcr_pid_cc: u8,
    /// Output index of the most recent PCR (content or re-inserted).
    last_pcr_index: Option<u64>,
    /// PCR re-insertion threshold, in output packets at the mux rate.
    pcr_max_packets: u64,
    /// Content admitted to the output but not yet transmitted, because a slot it
    /// would have used was taken by a re-inserted PCR.
    deferred: VecDeque<Packet>,
    /// Wall time the output slot at `anchor_slot` is due (first content + latency).
    anchor: Option<Nanos>,
    /// The output slot the wall-clock anchor refers to. Zero under
    /// [`Clocking::Arrival`]; the first placed slot under [`Clocking::Stream`],
    /// where the grid is absolute and a leg does not start at zero.
    anchor_slot: u64,
    /// Position of the next output packet: a running count under
    /// [`Clocking::Arrival`], an absolute grid index under [`Clocking::Stream`].
    slot: u64,
    /// Slot placement, present under [`Clocking::Stream`] only - its presence is
    /// what selects the mode everywhere below.
    grid: Option<StreamGrid>,
    /// Release latency and its hard upper bound, in output packets: the depth the
    /// leg aims to hold, and the depth past which it is behind the stream rather
    /// than buffering it.
    latency_packets: u64,
    max_latency_packets: u64,
    /// Added to the slot-derived RTP sequence number.
    sequence_seed: u16,
    /// When input silence stops being jitter and becomes a dead source.
    stall: Stall,
    /// Wall time content first arrived, which is where the start deadline runs
    /// from under [`Latency::Adaptive`].
    first_content_at: Option<Nanos>,
    /// Wall time content last arrived (after stripping input stuffing).
    last_content_at: Option<Nanos>,
    /// Whether the input was stalled as of the last output slot.
    stalled: bool,
    scratch: Vec<u8>,
    stats: Stats,
}

impl View for Scheduler {
    type V = State;

    closed spec fn view(&self) -> State {
        State {
            rate: self.mux_rate_bps,
            latency: self.latency,
            stall: self.stall,
            per_datagram: self.packets_per_datagram,
            pcr_spacing: self.pcr_max_packets,
            sequence_seed: self.sequence_seed,
            target: self.target,
            arrivals: self.profile@,
            buffer: self.buffer.packets(),
            capacity: self.buffer.bound(),
            media: self.media,
            regen: self.pcr_regen,
            pcr_pid: self.pcr_pid,
            pcr_pid_cc: self.pcr_pid_cc,
            last_pcr_index: self.last_pcr_index,
            deferred: bytes_of(self.deferred@),
            anchor: self.anchor,
            anchor_slot: self.anchor_slot,
            slot: self.slot,
            grid: match self.grid {
                Some(grid) => Some(grid@),
                None => None,
            },
            latency_packets: self.latency_packets,
            max_latency_packets: self.max_latency_packets,
            first_content_at: self.first_content_at,
            last_content_at: self.last_content_at,
            stalled: self.stalled,
            stats: self.stats,
        }
    }
}

impl Scheduler {
    /// What every operation keeps.
    pub closed spec fn wf(&self) -> bool {
        &&& self.fit()
        &&& self@.clocked()
    }

    /// The part of it that holds between two steps of one slot as well.
    spec fn fit(&self) -> bool {
        &&& self@.sound()
        &&& self.buffer.wf()
        &&& self.null@ == null_bytes()
    }

    /// The datagram last assembled.
    pub closed spec fn assembled(&self) -> Seq<u8> {
        self.scratch@
    }

    /// Build a scheduler from a [`Config`].
    ///
    /// The scheduler runs at a fixed rate, so a [`Bitrate::Auto`](crate::Bitrate)
    /// config must be resolved to a concrete rate before it reaches here. Passed an
    /// unresolved auto config directly, it falls back to [`DEFAULT_AUTO_FALLBACK`].
    pub fn new(config: &Config) -> (r: Self)
        requires
            config.latency.wf(),
        ensures
            r.wf(),
            r@ == State::initial(*config),
    {
        let resolved: u64 = match config.resolved_bitrate() {
            Some(bitrate) => bitrate,
            None => DEFAULT_AUTO_FALLBACK,
        };
        let bitrate: u64 = larger(resolved, 1);
        let fallback: u64 = cap(rounded_up(product(bitrate, NANOS_PER_SEC), PACKET_BITS));
        // Nothing has arrived, so an adaptive cushion starts at its floor and
        // grows from there; a pinned one is already what it will be.
        let target: Nanos = config.latency.target(0);
        let capacity: usize = larger_count(
            latency_to_packets(config.latency.cap(target), bitrate),
            1,
        );
        let pcr_regen: Option<PcrRegen> = match config.pcr {
            PcrMode::Regenerate => Some(PcrRegen::new(bitrate)),
            PcrMode::Preserve => None,
        };
        let grid: Option<StreamGrid> = if config.clocking == Clocking::Stream {
            Some(StreamGrid::new(bitrate, capacity))
        } else {
            None
        };
        // Inject with margin below the hard limit so datagram granularity can't
        // push an interval past it.
        let spacing: Nanos = Ratio::new(3, 4).scale(config.pcr_max_interval);
        Scheduler {
            mux_rate_bps: bitrate,
            latency: config.latency,
            target,
            profile: ArrivalProfile::new(),
            packets_per_datagram: larger_count(config.packets_per_datagram, 1),
            buffer: JitterBuffer::new(capacity),
            media: MediaClock::new(fallback),
            pcr_regen,
            null: null_packet(),
            pcr_pid: None,
            pcr_pid_cc: 0,
            last_pcr_index: None,
            pcr_max_packets: larger_count(latency_to_packets(spacing, bitrate), 1) as u64,
            deferred: VecDeque::new(),
            anchor: None,
            anchor_slot: 0,
            slot: 0,
            grid,
            latency_packets: latency_to_packets(target, bitrate) as u64,
            max_latency_packets: capacity as u64,
            sequence_seed: config.sequence_seed,
            stall: config.stall,
            first_content_at: None,
            last_content_at: None,
            stalled: false,
            scratch: room_for(larger_count(config.packets_per_datagram, 1)),
            stats: Stats::default(),
        }
    }

    /// Enqueue an input packet observed at `now`. The first packet arms both
    /// clocks (output starts `latency` later, priming the buffer). Returns the
    /// rate sample it completes, if any, for [`Scheduler::fold_rate`].
    ///
    /// Incoming null/stuffing packets (PID `0x1FFF`) are stripped here: they are
    /// pure padding, carry no PID/PSI/PES structure, and the pacer inserts its
    /// own stuffing to hit the target rate. Re-pacing an already-stuffed source
    /// would otherwise double-count the source's padding as media.
    pub fn enqueue(&mut self, packet: Packet, now: Nanos) -> (sample: Option<RateSample>)
        requires
            old(self).wf(),
        ensures
            final(self).wf(),
            final(self)@ == old(self)@.enqueued(packet@, now),
            sample == old(self)@.sample(packet@, now),
    {
        if packet.pid() == NULL_PID {
            self.stats.input_nulls_stripped = self.stats.input_nulls_stripped.saturating_add(1);
            return None;
        }
        self.note_arrival(&packet, now);
        if self.grid.is_some() {
            self.place(packet, now);
            return None;
        }
        let sample: Option<RateSample> = self.media.observe(packet.pcr());
        if self.buffer.push(packet) {
            self.stats.dropped_packets = self.stats.dropped_packets.saturating_add(1);
        }
        self.note_depth();
        self.arm(now);
        sample
    }

    /// Take note of a content packet's arrival: that the input is alive, which PID
    /// carries its clock, and how far ahead of real time it delivers.
    fn note_arrival(&mut self, packet: &Packet, now: Nanos)
        requires
            old(self).wf(),
            pid_of(packet@) != NULL_PID,
        ensures
            final(self).wf(),
            final(self)@ == old(self)@.noted(packet@, now),
    {
        if self.stalled {
            self.resume(now);
        }
        self.note_content_gap(now);
        if self.first_content_at.is_none() {
            self.first_content_at = Some(now);
        }
        self.last_content_at = Some(now);
        if self.pcr_pid.is_none() && packet.has_pcr() {
            self.pcr_pid = Some(packet.pid());
        }
        // Measured against the stream's own media rate, so a burst cannot inflate
        // the rate it is being compared with. Before the second PCR there is no
        // rate yet and the profile has nothing to say, which is why an adaptive
        // start also has a deadline.
        let rate: u64 = match self.media.estimated_rate() {
            Some(rate) => rate,
            None => 0,
        };
        self.profile.observe(now, rate);
        self.resize();
    }

    /// Take on a packet under stream clocking.
    ///
    /// The clock can only start once something has been placed: where the grid
    /// starts is what the wall clock is anchored to.
    ///
    /// A leg joining a running broadcast is handed whatever the relay has
    /// buffered, oldest first. Starting on that first packet would fix its
    /// output a backlog's worth behind its partner for the rest of the
    /// run - it emits at the mux rate, so it can never catch up. It starts
    /// at the live edge of what it holds instead, one release latency back,
    /// and lets the rest age out: content whose slot has passed is content
    /// the partner has already delivered. The choice is revisited until the
    /// first datagram goes out, because the burst is still arriving.
    ///
    /// Datagram boundaries have to come off the grid as well. A leg whose
    /// first content lands mid-datagram would otherwise split every
    /// datagram thereafter at an offset from its partner's - the same
    /// bytes, packed differently, which merges no better than different
    /// bytes do. Rounding down to a boundary costs a few slots of leading
    /// stuffing and makes the packing a property of the stream.
    fn place(&mut self, packet: Packet, now: Nanos)
        requires
            old(self).wf(),
            old(self)@.grid is Some,
            pid_of(packet@) != NULL_PID,
        ensures
            final(self).wf(),
            final(self)@ == old(self)@.placed(old(self)@.grid->Some_0, packet@, now),
    {
        proof {
            lemma_no_stuffing_comes(self@.grid->Some_0, packet@, now, 0);
        }
        if let Some(grid) = self.grid.as_mut() {
            let dropped: u64 = grid.push(packet, now);
            self.stats.dropped_packets = self.stats.dropped_packets.saturating_add(dropped);
            self.stats.pcr_position_overruns = grid.overruns();
            self.stats.pcr_position_displacement = grid.displacement_high_water();
        }
        self.set_phase(now);
        self.note_depth();
    }

    /// Set the output clock to the live edge, until something has gone out.
    fn set_phase(&mut self, now: Nanos)
        requires
            old(self).wf(),
        ensures
            final(self).wf(),
            final(self)@ == old(self)@.phased(now),
    {
        if self.stats.output_packets != 0 {
            return;
        }
        let (first, edge): (u64, u64) = match &self.grid {
            Some(grid) => match (grid.first_slot(), grid.last_slot()) {
                (Some(first), Some(edge)) => (first, edge),
                _ => {
                    return;
                },
            },
            None => {
                return;
            },
        };
        assert(first <= edge) by {
            let placed = self@.grid->Some_0.placed;
            assert(placed.len() > 0);
            assert(placed[0].0 == first && placed[placed.len() - 1].0 == edge);
        }
        let per_datagram: u64 = self.packets_per_datagram as u64;
        let start: u64 = larger(beyond(self.latency_packets, edge), first);
        if self.anchor.is_none() {
            self.anchor = Some(together(now, self.target));
        }
        self.anchor_slot = floor_to(start, per_datagram);
        self.slot = self.anchor_slot;
        self.stats.start_backlog = edge - first;
    }

    /// Refine the media-rate estimate by a sample that [`Scheduler::enqueue`]
    /// returned, older samples keeping `decay` parts of two to the sixty-fourth of
    /// their weight.
    pub fn fold_rate(&mut self, sample: RateSample, decay: u64)
        requires
            old(self).wf(),
        ensures
            final(self).wf(),
            final(self)@ == (State { media: old(self)@.media.folded(sample, decay), ..old(self)@ }),
    {
        self.media.fold(sample, decay);
    }

    /// Record how deep the buffer got, so the bound can be judged against use.
    fn note_depth(&mut self)
        requires
            old(self).wf(),
        ensures
            final(self).wf(),
            final(self)@ == old(self)@.depth_noted(),
    {
        let depth: u64 = self.buffered_packets() as u64;
        self.stats.buffer_high_water = larger(self.stats.buffer_high_water, depth);
    }

    /// Re-derive the depths from the arrival pattern observed so far.
    ///
    /// A no-op under [`Latency::Fixed`]. The cushion may fall as well as rise -
    /// a burst ages out of the measurement window - but the buffer bound only
    /// rises, because shrinking it underneath media already accepted would drop
    /// programme to satisfy a revised estimate.
    fn resize(&mut self)
        requires
            old(self).wf(),
        ensures
            final(self).wf(),
            final(self)@ == old(self)@.resized(),
    {
        match self.latency {
            Latency::Fixed { .. } => {
                return;
            },
            Latency::Adaptive { .. } => {},
        }
        self.target = self.latency.target(self.profile.lead());
        let bound: Nanos = self.latency.cap(self.target);
        self.latency_packets = latency_to_packets(self.target, self.mux_rate_bps) as u64;
        let capacity: usize = larger_count(latency_to_packets(bound, self.mux_rate_bps), 1);
        self.max_latency_packets = larger(self.max_latency_packets, capacity as u64);
        self.buffer.grow_to(capacity);
        if let Some(grid) = self.grid.as_mut() {
            grid.grow_to(capacity);
        }
    }

    /// Start the output clock if it is time to, under [`Latency::Adaptive`].
    ///
    /// Two conditions, and the second is the one a timer cannot express. The
    /// cushion has to be full, or the pacer starts on less programme than it has
    /// decided it needs. And the input has to be between deliveries, because the
    /// size of a burst is not known until it ends: a segmented feed reaches a
    /// 200 ms cushion 25 ms into a 2 s segment fetch, and a pacer that started
    /// there would drain what it held and then read the ordinary gap before the
    /// next segment as an underrun. Waiting for the delivery to finish is what
    /// lets the cushion be sized against the whole burst.
    ///
    /// A continuous feed is never mid-delivery in that sense - its lead stays
    /// below [`DELIVERY_GAP`](crate::DELIVERY_GAP) - so it starts as soon as it is
    /// primed. The deadline covers the input that fits neither description.
    fn arm(&mut self, now: Nanos)
        requires
            old(self).wf(),
        ensures
            final(self).wf(),
            final(self)@ == old(self)@.armed(now),
    {
        if self.anchor.is_some() {
            return;
        }
        let anchor: Nanos = match self.latency.start_deadline() {
            // Pinned depths start on a timer: the cushion is already known, so
            // there is nothing to learn by waiting for content to prove it.
            None => together(now, self.target),
            Some(deadline) => {
                let primed: bool = self.buffered_packets() as u64 >= self.latency_packets;
                let settled: bool = !self.profile.bursty() || self.profile.between_deliveries(now);
                let expired: bool = match self.first_content_at {
                    Some(first) => elapsed(first, now) >= deadline,
                    None => false,
                };
                if !((primed && settled) || expired) {
                    return;
                }
                now
            },
        };
        self.anchor = Some(anchor);
        self.media.anchor = Some(anchor);
    }

    /// Give an unstarted output clock the chance to start without a packet having
    /// arrived, so a cushion that filled during a delivery starts emitting in the
    /// silence that follows rather than waiting for the next delivery to prove it.
    ///
    /// The driver calls this while [`Scheduler::next_due`] is `None`. A no-op once
    /// the clock is running, and under [`Latency::Fixed`], which starts on the
    /// first packet.
    pub fn poll_start(&mut self, now: Nanos)
        requires
            old(self).wf(),
        ensures
            final(self).wf(),
            final(self)@ == old(self)@.polled(now),
    {
        if self.first_content_at.is_some() && self.latency.start_deadline().is_some() {
            self.arm(now);
        }
    }

    /// Start the output clock now, whatever the cushion holds.
    ///
    /// For an input that ended before it delivered a cushion's worth: nothing more
    /// is coming, so continuing to wait for it would discard the programme already
    /// in hand rather than pace it out.
    pub fn start_now(&mut self, now: Nanos)
        requires
            old(self).wf(),
        ensures
            final(self).wf(),
            final(self)@ == old(self)@.forced(now),
    {
        if self.anchor.is_none() {
            self.anchor = Some(now);
            self.media.anchor = Some(now);
        }
    }

    /// Place any packets held back waiting for a closing PCR, because the source
    /// has ended and none is coming. A no-op outside [`Clocking::Stream`].
    pub fn flush(&mut self)
        requires
            old(self).wf(),
        ensures
            final(self).wf(),
            final(self)@ == old(self)@.flushed(),
    {
        proof {
            if let Some(grid) = self@.grid {
                lemma_no_stuffing_comes(grid, Seq::empty(), 0, 0);
            }
        }
        if let Some(grid) = self.grid.as_mut() {
            let dropped: u64 = grid.flush();
            self.stats.dropped_packets = self.stats.dropped_packets.saturating_add(dropped);
        }
    }

    /// Restart the media clock after a stall, leaving the output byte clock alone.
    ///
    /// The media clock kept accruing due packets against a dead source, so without
    /// this the first datagrams after a stall would find every slot overdue and
    /// dump the refilled buffer at the mux rate instead of at media rate. The byte
    /// clock deliberately ran through the gap, so the regenerated PCR stays
    /// wall-clock-aligned; only the media timeline has a hole in it, which is what
    /// the discontinuity indicator is for.
    fn resume(&mut self, now: Nanos)
        requires
            old(self).wf(),
        ensures
            final(self).wf(),
            final(self)@ == old(self)@.resumed(now),
    {
        self.stalled = false;
        if let Some(regen) = self.pcr_regen.as_mut() {
            regen.flag_discontinuity();
        }
        // Under stream clocking there is no arrival-derived state to restore: the
        // returning content carries the slots it belongs in, which is the whole
        // point - a leg that has been silent for ten seconds resumes on the grid
        // its partner has been using throughout.
        if self.grid.is_some() {
            return;
        }
        self.media.restart(together(now, self.target));
    }

    /// What the input is currently doing. See [`SourceState`].
    pub fn state(&self, now: Nanos) -> (r: SourceState)
        requires
            self.wf(),
        ensures
            r == self@.source(now),
    {
        let last: Nanos = match self.last_content_at {
            Some(last) => last,
            None => {
                return SourceState::Priming;
            },
        };
        // An adaptive start holds the clock unarmed while it fills the cushion it
        // has sized, which is priming by any reading of the word.
        let running: bool = match self.anchor {
            Some(anchor) => now >= anchor,
            None => false,
        };
        if !running {
            return SourceState::Priming;
        }
        // Buffered media is still programme going to air. The input may already be
        // dead, but the output has not run out of content, so the clock the source
        // gave us is still worth holding - the stall only begins when the cushion
        // is spent. It is also what keeps an offline run, where packets are handed
        // over on a synthetic clock and the file simply ends, from reading as a
        // stall while it flushes its tail.
        if self.has_pending() {
            return SourceState::Live;
        }
        let silent: Nanos = elapsed(last, now);
        let gone: bool = match self.stall_timeout() {
            Some(timeout) => silent >= timeout,
            None => false,
        };
        if gone {
            SourceState::Stalled
        } else if silent >= self.target {
            SourceState::Starved
        } else {
            SourceState::Live
        }
    }

    /// The silence after which the input counts as gone rather than late, given
    /// the cushion currently in force. `None` disables stall detection.
    ///
    /// Under [`Stall::Adaptive`] this rises and falls with the cushion, which is
    /// the point: a leg holding four seconds of segmented programme has not lost
    /// its source one second into an ordinary inter-segment gap.
    pub fn stall_timeout(&self) -> (r: Option<Nanos>)
        ensures
            r == self@.stall.limit(self@.target),
    {
        self.stall.timeout(self.target)
    }

    /// Whether any content has arrived yet.
    pub fn content_seen(&self) -> (r: bool)
        ensures
            r == (self@.last_content_at is Some),
    {
        self.last_content_at.is_some()
    }

    /// How long the input has carried no content, zero before the first packet.
    pub fn silent_for(&self, now: Nanos) -> (r: Nanos)
        ensures
            r == self@.silence(now),
    {
        match self.last_content_at {
            Some(last) => elapsed(last, now),
            None => 0,
        }
    }

    /// Skip this output slot's worth of packets without emitting them, advancing
    /// the byte clock across the gap.
    ///
    /// This is the [`StallPolicy::Mute`](crate::StallPolicy::Mute) path: the wire
    /// goes quiet so downstream can see the source is gone, while the output index
    /// keeps counting so a resumed leg's PCR - and any sink numbering derived from
    /// the output position - picks up where real time says it should.
    pub fn advance_muted(&mut self, now: Nanos)
        requires
            old(self).wf(),
        ensures
            final(self).wf(),
            final(self)@ == old(self)@.muted(now),
    {
        let _ = self.observe_state(now);
        let packets: u64 = self.packets_per_datagram as u64;
        self.slot = self.slot.saturating_add(packets);
        self.stats.muted_packets = self.stats.muted_packets.saturating_add(packets);
    }

    /// Fold the current state into the stall bookkeeping, returning it.
    fn observe_state(&mut self, now: Nanos) -> (r: SourceState)
        requires
            old(self).wf(),
        ensures
            final(self).wf(),
            final(self)@ == old(self)@.observed(now),
            r == old(self)@.source(now),
    {
        let state: SourceState = self.state(now);
        let stalled: bool = state.is_stalled();
        if stalled {
            if !self.stalled {
                self.stats.stalls = self.stats.stalls.saturating_add(1);
            }
            // Track the gap as it grows, so a stall still in progress when the run
            // ends is reported at its true length rather than not at all.
            self.note_content_gap(now);
        }
        self.stalled = stalled;
        state
    }

    /// Record the silence up to `now` as a content gap, keeping the longest.
    fn note_content_gap(&mut self, now: Nanos)
        requires
            old(self).wf(),
        ensures
            final(self).wf(),
            final(self)@ == old(self)@.gap_noted(now),
    {
        if self.last_content_at.is_none() {
            return;
        }
        let gap: u64 = whole_millis(self.silent_for(now));
        self.stats.content_gap_max_ms = larger(self.stats.content_gap_max_ms, gap);
    }

    /// Wall-clock instant the next output datagram is due, or `None` until the
    /// first packet has armed the clock.
    pub fn next_due(&self) -> (r: Option<Nanos>)
        requires
            self.wf(),
        ensures
            r == self@.due(),
    {
        match self.anchor {
            Some(anchor) => {
                let into: Nanos = self.packets_to_duration(beyond(self.anchor_slot, self.slot));
                Some(together(anchor, into))
            },
            None => None,
        }
    }

    /// Where the next datagram sits in the stream, for a sink that numbers its
    /// output - `None` under [`Clocking::Arrival`], where the slot is only a send
    /// count and a sequence derived from it says no more than the sink's own.
    ///
    /// Under [`Clocking::Stream`] the numbering is a function of stream position,
    /// so a leg that starts late, or mutes and returns, carries the numbers its
    /// partner is already using rather than its own count of what it has sent.
    pub fn framing(&self) -> (r: Option<Framing>)
        requires
            self.wf(),
        ensures
            r == self@.framing(),
    {
        match &self.grid {
            Some(grid) => {
                let datagram_index: u64 = self.slot / (self.packets_per_datagram as u64);
                let sequence: u64 = (datagram_index % 0x1_0000 + self.sequence_seed as u64)
                    % 0x1_0000;
                proof {
                    vstd::arithmetic::div_mod::lemma_add_mod_noop(
                        datagram_index as int,
                        self.sequence_seed as int,
                        0x1_0000,
                    );
                    vstd::arithmetic::div_mod::lemma_small_mod(
                        self.sequence_seed as nat,
                        0x1_0000,
                    );
                    assert(sequence == (datagram_index + self.sequence_seed) % 0x1_0000);
                }
                // The 90 kHz RTP timestamp is the 27 MHz slot PCR divided down, so the
                // framing and the payload are locked to the same grid.
                let timestamp: u64 = grid.map().pcr_of_slot(self.slot) / 300 % 0x1_0000_0000;
                Some(
                    Framing {
                        slot: self.slot,
                        sequence: sequence as u16,
                        timestamp_90khz: timestamp as u32,
                    },
                )
            },
            None => None,
        }
    }

    /// Whether any content remains to be emitted.
    pub fn has_pending(&self) -> (r: bool)
        ensures
            r == self@.pending(),
    {
        if self.deferred.len() > 0 {
            return true;
        }
        match &self.grid {
            Some(grid) => grid.has_content(),
            None => !self.buffer.is_empty(),
        }
    }

    /// Whether the source's PCR positions have diverged from its PCR values by
    /// more than the buffer can absorb.
    ///
    /// The bound is the hard cap on buffered media because that is the point at
    /// which spilling stops being a deferral and starts being a loss: below it the
    /// displacement is spilled packets waiting in a buffer that is allowed to be
    /// that deep, and above it the live edge outruns the output clock, so the
    /// catch-up path moves the clock and the skipped slots are dropped.
    /// Always `false` under [`Clocking::Arrival`], which has no grid to displace.
    pub fn pcr_position_diverged(&self) -> (r: bool)
        ensures
            r == self@.diverged(),
    {
        match &self.grid {
            Some(grid) => grid.displacement_high_water() > self.max_latency_packets,
            None => false,
        }
    }

    /// Current jitter-buffer occupancy in packets (the de-jitter cushion depth).
    pub fn buffered_packets(&self) -> (r: usize)
        requires
            self.wf(),
        ensures
            r == self@.held(),
    {
        let held: usize = match &self.grid {
            Some(grid) => grid.held(),
            None => self.buffer.len(),
        };
        held.saturating_add(self.deferred.len())
    }

    /// Content packets admitted to the output and displaced by a re-inserted PCR,
    /// still to be transmitted.
    pub fn deferred_packets(&self) -> (r: usize)
        ensures
            r == self@.deferred.len(),
    {
        self.deferred.len()
    }

    /// A snapshot of the pacing statistics.
    ///
    /// The arrival, depth and rate figures are read from live state rather than
    /// kept as counters, since they describe what the input is doing now rather
    /// than tallying what it has done.
    pub fn stats(&self) -> (r: Stats)
        requires
            self.wf(),
        ensures
            r == self@.snapshot(),
    {
        let displaced: Nanos = self.packets_to_duration(self.stats.pcr_position_displacement);
        Stats {
            burst_max_packets: self.profile.burst_max_packets(),
            bursts: self.profile.bursts(),
            arrival_lead_ms: whole_millis(self.profile.lead()),
            latency_target_ms: whole_millis(self.target),
            media_rate_bps: cap(product(self.media.rate(), PACKET_BITS) / (NANOS_PER_SEC as u128)),
            buffer_packets: self.buffered_packets() as u64,
            rate_decayed_packets: self.media.decayed_packets,
            rate_decayed_secs: self.media.decayed_nanos,
            rate_intervals: self.media.intervals,
            rate_pcrs_seen: self.media.pcrs_seen,
            rate_max_packets_in_interval: self.media.max_packets_in_interval,
            rate_sub_ms_intervals: self.media.sub_ms_intervals,
            rate_clock_stalled: self.media.clock_stalled(),
            rate_pending_packets: self.media.pending_packets.saturating_add(
                self.media.frozen_packets,
            ),
            pcr_position_displacement_ms: whole_millis(displaced),
            ..self.stats
        }
    }

    /// Emit one output datagram (`packets_per_datagram` transport packets) at
    /// `now`, advancing the byte clock. Returns a borrow of the internal scratch
    /// buffer, valid until the next call. Room for a whole datagram is taken at
    /// construction.
    pub fn emit_datagram(&mut self, now: Nanos) -> (datagram: &[u8])
        requires
            old(self).wf(),
        ensures
            final(self).wf(),
            final(self)@ == old(self)@.emitted(now),
            datagram@ == old(self)@.datagram(now),
            final(self).assembled() == datagram@,
            datagram@.len() == old(self)@.per_datagram * TS_PACKET_SIZE,
            forall|i: int|
                0 <= i < old(self)@.per_datagram ==> datagram@[#[trigger] (i * TS_PACKET_SIZE)]
                    == SYNC_BYTE,
    {
        self.catch_up(now);
        let due: u64 = self.media.due(now, self.buffer.len(), self.target);
        // With no content arriving there is no clock to hold: inserting PCR into a
        // programme-free carrier is what makes a dead feed look conformant to
        // everything downstream, so re-insertion stops with the content.
        let stalled: bool = self.observe_state(now).is_stalled();
        self.scratch.clear();
        let ghost open = self@;
        let packets: usize = self.packets_per_datagram;
        let mut sent: usize = 0;
        while sent < packets
            invariant
                sent <= packets,
                self.wf(),
                self@ == open.packets_sent(sent as nat, due, stalled),
                self.scratch@ == open.packets_out(sent as nat, due, stalled),
                self.scratch@.len() == sent * TS_PACKET_SIZE,
                forall|i: int|
                    0 <= i < sent ==> self.scratch@[#[trigger] (i * TS_PACKET_SIZE)] == SYNC_BYTE,
            decreases packets - sent,
        {
            self.emit_packet(due, stalled);
            sent += 1;
        }
        self.scratch.as_slice()
    }

    /// The datagram that [`Scheduler::emit_datagram`] last assembled.
    pub fn datagram(&self) -> (r: &[u8])
        ensures
            r@ == self.assembled(),
    {
        self.scratch.as_slice()
    }

    /// Emit one output packet onto the datagram being assembled.
    fn emit_packet(&mut self, due: u64, stalled: bool)
        requires
            old(self).wf(),
        ensures
            final(self).wf(),
            final(self)@ == old(self)@.packet_sent(due, stalled),
            final(self).scratch@ == old(self).scratch@ + old(self)@.packet_out(due, stalled),
            final(self).scratch@.len() == old(self).scratch@.len() + TS_PACKET_SIZE,
            final(self).scratch@[old(self).scratch@.len() as int] == SYNC_BYTE,
    {
        let want_content: bool = self.media.released < due;
        self.release_one(want_content);
        match self.reinsert_pcr(stalled) {
            Some(pcr) => {
                // The PCR takes the slot whether or not content wanted it. Content
                // it displaces waits one slot in `deferred`; see `reinsert_pcr`.
                if let Some(pid) = self.pcr_pid {
                    let packet: [u8; TS_PACKET_SIZE] = pcr_only_packet(pid, self.pcr_pid_cc, pcr);
                    let bytes: &[u8] = &packet;
                    append(&mut self.scratch, bytes);
                }
                self.last_pcr_index = Some(self.slot);
                self.stats.pcr_inserted = self.stats.pcr_inserted.saturating_add(1);
            },
            None => {
                if self.deferred.len() > 0 {
                    self.send_content();
                } else {
                    let bytes: &[u8] = &self.null;
                    append(&mut self.scratch, bytes);
                    self.stats.null_packets = self.stats.null_packets.saturating_add(1);
                    // A null while content was due but unavailable is a genuine
                    // underrun (input starved); a null while holding the cushion is
                    // ordinary rate stuffing. A stalled source is neither: it is
                    // counted as a stall, so it can't hide inside the underrun figure.
                    if want_content && !stalled {
                        self.stats.underruns = self.stats.underruns.saturating_add(1);
                    }
                }
            },
        }
        self.slot = self.slot.saturating_add(1);
        self.stats.output_packets = self.stats.output_packets.saturating_add(1);
    }
}

impl Scheduler {
    /// Put the packet that has waited longest in the emission queue on the datagram
    /// being assembled, its PCR locked to the slot.
    fn send_content(&mut self)
        requires
            old(self).fit(),
            old(self)@.deferred.len() > 0,
        ensures
            final(self).fit(),
            final(self)@ == old(self)@.content_sent(old(self)@.deferred.first()),
            final(self).scratch@ == old(self).scratch@ + old(self)@.content_bytes(
                old(self)@.deferred.first(),
            ),
            final(self).scratch@.len() == old(self).scratch@.len() + TS_PACKET_SIZE,
            final(self).scratch@[old(self).scratch@.len() as int] == SYNC_BYTE,
    {
        let packet: Packet = match self.deferred.pop_front() {
            Some(packet) => packet,
            None => {
                return;
            },
        };
        assert(bytes_of(self.deferred@) =~= old(self)@.deferred.drop_first());
        let is_pcr: bool = packet.has_pcr();
        let bytes: &[u8] = packet.as_bytes();
        if let Some(pid) = self.pcr_pid {
            if pid == packet.pid() {
                let octet: u8 = bytes[3];
                assert(octet & 0x0f == octet % 16) by (bit_vector);
                self.pcr_pid_cc = octet & 0x0f;
            }
        }
        let start: usize = self.scratch.len();
        append(&mut self.scratch, bytes);
        let rebased: bool = self.lock_pcr(start);
        if rebased {
            self.stats.pcr_rebases = self.stats.pcr_rebases.saturating_add(1);
        }
        if is_pcr {
            self.last_pcr_index = Some(self.slot);
        }
        self.stats.content_packets = self.stats.content_packets.saturating_add(1);
    }

    /// Lock the PCR of the packet at the end of the datagram, from `start` on, to
    /// the slot it goes out in. Returns whether that re-based the clock.
    fn lock_pcr(&mut self, start: usize) -> (rebased: bool)
        requires
            old(self).fit(),
            start <= old(self).scratch@.len(),
        ensures
            final(self).fit(),
            ({
                let b = old(self).scratch@.skip(start as int);
                let before = old(self)@;
                &&& final(self).scratch@ == old(self).scratch@.take(start as int) + match (
                    before.regen,
                    before.grid,
                ) {
                    (Some(regen), Some(grid)) => regen.rewritten_absolute(
                        b,
                        grid.map.pcr(before.slot),
                    ),
                    (Some(regen), None) => regen.rewritten(b, before.slot),
                    (None, _) => b,
                }
                &&& final(self)@ == (State {
                    regen: match (before.regen, before.grid) {
                        (Some(regen), Some(_)) => Some(regen.after_rewrite_absolute(b)),
                        (Some(regen), None) => Some(regen.after_rewrite(b, before.slot)),
                        (None, _) => None,
                    },
                    ..before
                })
                &&& rebased == match (before.regen, before.grid, pcr_of(b)) {
                    (Some(regen), None, Some(src)) => regen.rebases(src),
                    _ => false,
                }
            }),
    {
        let ghost whole = self.scratch@;
        let index: u64 = self.slot;
        let absolute: Option<u64> = match &self.grid {
            // The slot *is* the clock, so there is no anchor to re-base
            // on and no per-process history in the emitted value.
            Some(grid) => Some(grid.map().pcr_of_slot(index)),
            None => None,
        };
        let mut rebased: bool = false;
        if let Some(regen) = self.pcr_regen.as_mut() {
            let (_, packet) = self.scratch.as_mut_slice().split_at_mut(start);
            match absolute {
                Some(pcr) => {
                    regen.rewrite_absolute(packet, pcr);
                },
                None => {
                    rebased = regen.rewrite(packet, index);
                },
            }
        }
        proof {
            assert(whole =~= whole.take(start as int) + whole.skip(start as int));
        }
        rebased
    }

    /// Move at most one packet from the input side into the emission queue.
    ///
    /// Release is still governed by the clock the mode selects - the media clock
    /// under arrival clocking, the slot map under stream clocking - so admitting
    /// one packet per slot changes nothing about *when* content becomes eligible.
    /// It only separates becoming eligible from being transmitted, which is what
    /// lets a PCR take a slot without the content that wanted it being lost.
    ///
    /// Under stream clocking the grid must be asked at every slot even while
    /// `deferred` is occupied, because a packet whose slot passes unasked is
    /// discarded by [`StreamGrid::take`] as late.
    fn release_one(&mut self, want_content: bool)
        requires
            old(self).wf(),
        ensures
            final(self).wf(),
            final(self)@ == old(self)@.admitted(want_content),
            final(self).scratch@ == old(self).scratch@,
    {
        if let Some(packet) = self.next_content(want_content) {
            self.media.released = self.media.released.saturating_add(1);
            let ghost waiting = bytes_of(self.deferred@);
            let ghost last = packet@;
            self.deferred.push_back(packet);
            assert(bytes_of(self.deferred@) =~= waiting.push(last));
        }
    }

    /// The content packet for the slot the output is at, if one belongs there.
    ///
    /// The two clocking modes differ here and nowhere else that matters: arrival
    /// clocking asks whether the media clock says a packet is *due now*, stream
    /// clocking asks whether a packet *belongs in this slot*. The first depends on
    /// when this process got round to emitting; the second does not.
    fn next_content(&mut self, want_content: bool) -> (packet: Option<Packet>)
        requires
            old(self).wf(),
        ensures
            final(self).wf(),
            final(self).scratch@ == old(self).scratch@,
            match packet {
                Some(p) => is_content(p@) && final(self)@.released(p@) == old(self)@.admitted(
                    want_content,
                ),
                None => final(self)@ == old(self)@.admitted(want_content),
            },
    {
        let slot: u64 = self.slot;
        proof {
            if let Some(grid) = self@.grid {
                lemma_no_stuffing_comes(grid, Seq::empty(), 0, slot);
            }
        }
        match self.grid.as_mut() {
            None => {
                if want_content {
                    self.buffer.pop()
                } else {
                    None
                }
            },
            Some(grid) => {
                let (packet, late) = grid.take(slot);
                // Arriving too late for its slot is a drop, not a re-placement: moving
                // the packet would make its position depend on the delay, and the pair
                // would diverge from exactly the jitter this design removes.
                self.stats.late_drops = self.stats.late_drops.saturating_add(late);
                packet
            },
        }
    }

    /// Move the output clock to the live edge when the leg is holding more stream
    /// than its buffer is allowed to be deep.
    ///
    /// A leg that subscribes to a running broadcast is served from where the
    /// relay's buffer starts, not from the live edge, and takes delivery of the
    /// backlog at whatever rate the path gives it. Emitting at the mux rate it
    /// cannot catch up, so without this it runs a buffer's depth behind its
    /// partner indefinitely - the depth being an operator's tuning choice, which
    /// is no basis for the phase of a redundant pair. The alternative is worse:
    /// dropping the oldest packets to stay under the bound keeps the leg late *and*
    /// deletes programme to do it.
    ///
    /// Backlog beyond the release latency is programme the partner has already
    /// delivered, so it is discarded by [`StreamGrid::take`] as the clock passes
    /// it. Under arrival clocking there is no grid and nothing to skip to.
    ///
    /// [`Scheduler::emit_datagram`] does this first, so a driver that numbers what it
    /// sends calls it before it asks for [`Scheduler::framing`].
    pub fn catch_up(&mut self, now: Nanos)
        requires
            old(self).wf(),
        ensures
            final(self).wf(),
            final(self)@ == old(self)@.caught_up(now),
    {
        let edge: u64 = match &self.grid {
            Some(grid) => match grid.last_slot() {
                Some(edge) => edge,
                None => {
                    return;
                },
            },
            None => {
                return;
            },
        };
        if beyond(self.slot, edge) <= self.max_latency_packets {
            return;
        }
        let per_datagram: u64 = self.packets_per_datagram as u64;
        let back: u64 = beyond(self.latency_packets, edge);
        let target: u64 = floor_to(back, per_datagram);
        if target <= self.slot {
            return;
        }
        self.anchor = Some(now);
        self.anchor_slot = target;
        self.slot = target;
        // Content admitted for a slot the clock has just jumped over is backlog by
        // the same definition as the placed packets `take` will now discard.
        self.stats.late_drops = self.stats.late_drops.saturating_add(self.deferred.len() as u64);
        self.deferred.clear();
        self.stats.resyncs = self.stats.resyncs.saturating_add(1);
    }

    /// The byte-locked PCR to re-insert in the slot the output is at, or `None`
    /// when re-insertion doesn't apply: a stalled source, preserve mode, no PCR PID
    /// learned yet, no real PCR seen yet, the repetition limit not yet reached, or
    /// the packet already queued for this slot carrying a PCR of its own.
    ///
    /// **Re-insertion pre-empts content; it does not wait for a spare slot.** The
    /// obvious cheaper rule - insert only where the scheduler was going to stuff
    /// anyway - holds the repetition limit on any stream that has stuffing
    /// *distributed*, and fails on precisely the stream this pacer exists for. A
    /// media-aware source delivers a coded frame as one burst, so its output has
    /// ample stuffing overall and none at all inside the burst: the deadline falls
    /// where every slot is spoken for, no spare slot appears until the burst has
    /// drained, and the interval runs to the length of the frame. Taking the slot
    /// costs one packet of carrier per PCR - 0.34% at a 40 ms limit and 11 Mb/s -
    /// against an interval bounded by the frame size, which no cushion shortens.
    fn reinsert_pcr(&self, stalled: bool) -> (pcr: Option<u64>)
        requires
            self.wf(),
        ensures
            pcr == self@.insertion(stalled),
            pcr is Some ==> self@.pcr_pid is Some,
    {
        if stalled || self.pcr_pid.is_none() {
            return None;
        }
        match (&self.pcr_regen, self.last_pcr_index) {
            (Some(regen), Some(last)) => {
                if beyond(last, self.slot) < self.pcr_max_packets {
                    return None;
                }
                if self.deferred.len() > 0 && self.deferred[0].has_pcr() {
                    return None;
                }
                match &self.grid {
                    Some(grid) => Some(grid.map().pcr_of_slot(self.slot)),
                    None => regen.locked_for_index(self.slot),
                }
            },
            _ => None,
        }
    }

    /// Wall-clock duration to transmit `packets` at the mux rate.
    fn packets_to_duration(&self, packets: u64) -> (r: Nanos)
        requires
            self.wf(),
        ensures
            r == time_for(packets, self@.rate),
    {
        let bits: u128 = (packets as u128) * 1_504_000_000_000;
        assert(packets * PACKET_BITS * NANOS_PER_SEC == packets * 1_504_000_000_000);
        cap(bits / (self.mux_rate_bps as u128)) as Nanos
    }
}

/// What a scheduler holds is well formed as long as the scheduler is, which every
/// operation on it keeps.
pub proof fn law_what_is_held_is_well_formed(scheduler: Scheduler)
    requires
        scheduler.wf(),
    ensures
        scheduler@.wf(),
{
}

/// An empty buffer with room for `packets` packets, short of what no buffer can have
/// room for on every machine (a buffer holds less than two gigabytes on a small one).
fn room_for(packets: usize) -> (r: Vec<u8>)
    ensures
        r@ == Seq::<u8>::empty(),
{
    if packets <= 0x7fff_ffff / TS_PACKET_SIZE {
        Vec::with_capacity(packets * TS_PACKET_SIZE)
    } else {
        Vec::new()
    }
}

/// Append `bytes` to `out`.
fn append(out: &mut Vec<u8>, bytes: &[u8])
    ensures
        final(out)@ == old(out)@ + bytes@,
{
    out.extend_from_slice(bytes);
    assert(out@ =~= old(out)@ + bytes@);
}

/// Whole packets come first, and then what is left of the time.
proof fn lemma_packets_in_two(latency: int, rate: int, packet: int)
    requires
        latency >= 0,
        rate >= 0,
        packet > 0,
    ensures
        ceil_div(latency * rate, packet) == (latency / packet) * rate + ceil_div(
            (latency % packet) * rate,
            packet,
        ),
{
    let (q, r) = (latency / packet, latency % packet);
    vstd::arithmetic::div_mod::lemma_fundamental_div_mod(latency, packet);
    assert(latency * rate + packet - 1 == (r * rate + packet - 1) + (q * rate) * packet)
        by (nonlinear_arith)
        requires
            latency == packet * q + r,
    ;
    vstd::arithmetic::div_mod::lemma_hoist_over_denominator(
        r * rate + packet - 1,
        q * rate,
        packet as nat,
    );
}

/// Less than the time of a packet's bits at one bit a second holds no more packets than
/// there are bits in a second.
proof fn lemma_more_packets(rest: int, rate: int, packet: int)
    requires
        0 <= rest < packet,
        0 <= rate <= u64::MAX,
    ensures
        ceil_div(rest * rate, packet) <= rate,
{
    assert(rest * rate + packet - 1 < (rate + 1) * packet) by (nonlinear_arith)
        requires
            0 <= rest < packet,
            rate >= 0,
    ;
    vstd::arithmetic::div_mod::lemma_div_by_multiple_is_strongly_ordered(
        rest * rate + packet - 1,
        (rate + 1) * packet,
        rate + 1,
        packet,
    );
    crate::arith::lemma_exact_division(rate + 1, packet);
}

/// How many 188-byte packets a `latency` window holds at `bitrate`.
pub fn latency_to_packets(latency: Nanos, bitrate: u64) -> (r: usize)
    ensures
        r == packets_for(latency, bitrate),
{
    let packet: u64 = 1_504_000_000_000;
    assert(packet == PACKET_BITS * NANOS_PER_SEC);
    let whole: u128 = latency / (packet as u128);
    let rest: u128 = latency % (packet as u128);
    proof {
        lemma_product_bound(rest as int, bitrate as int);
        lemma_packets_in_two(latency as int, bitrate as int, packet as int);
    }
    let more: u128 = rounded_up(rest * (bitrate as u128), packet);
    if bitrate > 0 && whole > u64::MAX as u128 {
        proof {
            assert(whole * bitrate > u64::MAX) by (nonlinear_arith)
                requires
                    whole > u64::MAX,
                    bitrate >= 1,
            ;
        }
        return usize::MAX;
    }
    proof {
        if bitrate > 0 {
            lemma_product_bound(whole as int, bitrate as int);
        } else {
            assert(whole * bitrate == 0);
        }
        assert(more <= 0x1_0000_0000_0000_0000) by {
            lemma_more_packets(rest as int, bitrate as int, packet as int);
        }
    }
    let packets: u128 = whole * (bitrate as u128) + more;
    if packets > usize::MAX as u128 {
        usize::MAX
    } else {
        packets as usize
    }
}

} // verus!
