//! What the scheduler holds, and how each event changes it.
//!
//! The [`Scheduler`](crate::Scheduler) is a state machine over [`State`]: a packet
//! arrives, a datagram goes out, a slot is muted, the input ends. Each event is one
//! function here from the state before it to the state after it, and what a
//! datagram carries is a function of the state it was emitted from. What follows
//! for every run is in [`laws`](crate::laws).

use vstd::prelude::*;

use crate::arith::{
    at_longest, beyond, capped, capped_count, ceil_div, elapsed, floor_to, in_millis, larger,
    larger_count, lasting, Nanos, Ratio, NANOS_PER_SEC,
};
use crate::arrival::Arrivals;
use crate::config::{Clocking, Config, Latency, PcrMode, Stall, DEFAULT_AUTO_FALLBACK};
use crate::jitter_buffer::joined;
use crate::media_clock::{MediaClock, RateSample};
use crate::null_insertion::{is_content, null_bytes, pcr_only_bytes, NULL_PID};
use crate::observe::SourceState;
use crate::output::Framing;
use crate::packet::pid_of;
use crate::pcr::{locked_pcr, pcr_of, PcrRegen, PACKET_BITS};
use crate::stats::Stats;
use crate::stream_grid::{overdue, Placement};

verus! {

/// How many 188-byte packets a window of `latency` holds at `rate` bits per second,
/// a part of one counting whole.
pub open spec fn packets_for(latency: Nanos, rate: u64) -> usize {
    capped_count(ceil_div(latency * rate, PACKET_BITS * NANOS_PER_SEC) as nat)
}

/// How long `packets` take to transmit at `rate` bits per second.
pub open spec fn time_for(packets: u64, rate: u64) -> Nanos {
    capped(packets * PACKET_BITS * NANOS_PER_SEC / rate as int) as Nanos
}

/// A count raised by `n`, held at its limit.
pub open spec fn raised(count: u64, n: int) -> u64 {
    capped(count + n)
}

/// What the scheduler holds.
#[verifier::ext_equal]
pub struct State {
    /// Output rate, in bits per second.
    pub rate: u64,
    /// How the depths are decided.
    pub latency: Latency,
    /// When input silence becomes a dead source.
    pub stall: Stall,
    /// Packets in a datagram.
    pub per_datagram: usize,
    /// PCR re-insertion threshold, in output packets.
    pub pcr_spacing: u64,
    /// Added to the slot-derived sequence number.
    pub sequence_seed: u16,
    /// The cushion in force.
    pub target: Nanos,
    /// What the arrival pattern has been observed to be.
    pub arrivals: Arrivals,
    /// Packets waiting for the media clock, oldest first.
    pub buffer: Seq<Seq<u8>>,
    /// Most packets that may wait there.
    pub capacity: usize,
    /// The media clock.
    pub media: MediaClock,
    /// The PCR regenerator, absent where source values are kept.
    pub regen: Option<PcrRegen>,
    /// PCR PID, learned from the first PCR-bearing packet.
    pub pcr_pid: Option<u16>,
    /// Continuity counter last sent on that PID.
    pub pcr_pid_cc: u8,
    /// Output index of the most recent PCR.
    pub last_pcr_index: Option<u64>,
    /// Content admitted to the output but not yet transmitted.
    pub deferred: Seq<Seq<u8>>,
    /// When the slot at `anchor_slot` is due.
    pub anchor: Option<Nanos>,
    /// The slot that `anchor` refers to.
    pub anchor_slot: u64,
    /// Position of the next output packet.
    pub slot: u64,
    /// Slot placement, under stream clocking only.
    pub grid: Option<Placement>,
    /// The depth the leg aims to hold, in output packets.
    pub latency_packets: u64,
    /// The depth past which it is behind the stream.
    pub max_latency_packets: u64,
    /// When content first arrived.
    pub first_content_at: Option<Nanos>,
    /// When content last arrived.
    pub last_content_at: Option<Nanos>,
    /// Whether the input was stalled as of the last output slot.
    pub stalled: bool,
    /// The counters.
    pub stats: Stats,
}

impl State {
    /// What every operation keeps.
    pub open spec fn wf(self) -> bool {
        &&& self.sound()
        &&& self.clocked()
    }

    /// Rates to divide by, room in every buffer and nothing but content in it, one
    /// clock rate throughout.
    pub open spec fn sound(self) -> bool {
        &&& self.rate >= 1
        &&& self.latency.wf()
        &&& self.per_datagram >= 1
        &&& self.pcr_spacing >= 1
        &&& self.capacity >= 1
        &&& self.buffer.len() <= self.capacity
        &&& forall|i: int| 0 <= i < self.buffer.len() ==> is_content(#[trigger] self.buffer[i])
        &&& forall|i: int| 0 <= i < self.deferred.len() ==> is_content(#[trigger] self.deferred[i])
        &&& self.pcr_pid matches Some(pid) ==> pid < NULL_PID
        &&& self.regen matches Some(regen) ==> regen.wf() && regen.mux_rate_bps == self.rate
        &&& self.grid matches Some(grid) ==> grid.wf() && grid.map.mux_rate_bps == self.rate
            && grid.stuffing_free()
    }

    /// A PCR that has gone out went out in an earlier slot, and set the regenerated
    /// clock going.
    pub open spec fn clocked(self) -> bool {
        self.last_pcr_index matches Some(last) ==> {
            &&& last <= self.slot
            &&& self.stats.output_packets > 0
            &&& self.regen is Some && self.grid is None ==> self.regen->Some_0.anchor is Some
        }
    }

    /// A scheduler that has seen nothing.
    pub open spec fn initial(config: Config) -> State {
        let rate = larger(
            match config.resolved_bitrate() {
                Some(bitrate) => bitrate,
                None => DEFAULT_AUTO_FALLBACK,
            },
            1,
        );
        let target = config.latency.cushion(0);
        let capacity = larger_count(packets_for(config.latency.bound(target), rate), 1);
        let three_quarters = Ratio { numerator: 3, denominator: 4 };
        State {
            rate,
            latency: config.latency,
            stall: config.stall,
            per_datagram: larger_count(config.packets_per_datagram, 1),
            pcr_spacing: larger_count(
                packets_for(at_longest(three_quarters.of(config.pcr_max_interval as int)), rate),
                1,
            ) as u64,
            sequence_seed: config.sequence_seed,
            target,
            arrivals: Arrivals::none(),
            buffer: Seq::empty(),
            capacity,
            media: MediaClock::fresh(capped(ceil_div(rate * NANOS_PER_SEC, PACKET_BITS as int))),
            regen: match config.pcr {
                PcrMode::Regenerate => Some(
                    PcrRegen { mux_rate_bps: rate, anchor: None, last_src: None, flag_next: false },
                ),
                PcrMode::Preserve => None,
            },
            pcr_pid: None,
            pcr_pid_cc: 0,
            last_pcr_index: None,
            deferred: Seq::empty(),
            anchor: None,
            anchor_slot: 0,
            slot: 0,
            grid: if config.clocking == Clocking::Stream {
                Some(Placement::empty(rate, capacity))
            } else {
                None
            },
            latency_packets: packets_for(target, rate) as u64,
            max_latency_packets: capacity as u64,
            first_content_at: None,
            last_content_at: None,
            stalled: false,
            stats: Stats::zero(),
        }
    }

    // --- input ------------------------------------------------------------------

    /// An input packet observed at `now`.
    pub open spec fn enqueued(self, packet: Seq<u8>, now: Nanos) -> State {
        if pid_of(packet) == NULL_PID {
            State {
                stats: Stats {
                    input_nulls_stripped: raised(self.stats.input_nulls_stripped, 1),
                    ..self.stats
                },
                ..self
            }
        } else {
            let ready = self.noted(packet, now);
            match ready.grid {
                Some(grid) => ready.placed(grid, packet, now),
                None => ready.buffered(packet, now),
            }
        }
    }

    /// The rate sample that a packet completes, if any.
    pub open spec fn sample(self, packet: Seq<u8>, now: Nanos) -> Option<RateSample> {
        if pid_of(packet) == NULL_PID || self.grid is Some {
            None
        } else {
            self.noted(packet, now).media.sample(pcr_of(packet))
        }
    }

    /// What the arrival of `packet` says of the input, before it is held.
    pub open spec fn noted(self, packet: Seq<u8>, now: Nanos) -> State {
        let woken = if self.stalled {
            self.resumed(now)
        } else {
            self
        };
        let heard = woken.gap_noted(now);
        State {
            first_content_at: match heard.first_content_at {
                Some(at) => Some(at),
                None => Some(now),
            },
            last_content_at: Some(now),
            pcr_pid: match heard.pcr_pid {
                Some(pid) => Some(pid),
                None => if pcr_of(packet) is Some {
                    Some(pid_of(packet))
                } else {
                    None
                },
            },
            arrivals: heard.arrivals.after(
                now,
                match heard.media.recovered() {
                    Some(rate) => rate,
                    None => 0,
                },
            ),
            ..heard
        }.resized()
    }

    /// A packet taken on under stream clocking: placed on the grid, and the output
    /// clock set to the live edge for as long as nothing has gone out.
    pub open spec fn placed(self, grid: Placement, packet: Seq<u8>, now: Nanos) -> State {
        let after = grid.pushed(packet, now);
        let counted = State {
            grid: Some(after),
            stats: Stats {
                dropped_packets: raised(
                    self.stats.dropped_packets,
                    grid.push_drops(packet) as int,
                ),
                pcr_position_overruns: after.overruns,
                pcr_position_displacement: after.displacement,
                ..self.stats
            },
            ..self
        };
        counted.phased(now).depth_noted()
    }

    /// The output clock set to the live edge, one release latency back, on a
    /// datagram boundary of the grid.
    pub open spec fn phased(self, now: Nanos) -> State {
        match self.grid {
            Some(grid) if self.stats.output_packets == 0 && grid.placed.len() > 0 => {
                let first = grid.placed.first().0;
                let edge = grid.placed.last().0;
                let start = larger(beyond(self.latency_packets, edge), first);
                let at = floor_to(start, self.per_datagram as u64);
                State {
                    anchor: match self.anchor {
                        Some(anchor) => Some(anchor),
                        None => Some(lasting(now + self.target)),
                    },
                    anchor_slot: at,
                    slot: at,
                    stats: Stats { start_backlog: (edge - first) as u64, ..self.stats },
                    ..self
                }
            },
            _ => self,
        }
    }

    /// A packet taken on under arrival clocking: behind the rest in the buffer.
    pub open spec fn buffered(self, packet: Seq<u8>, now: Nanos) -> State {
        State {
            media: self.media.observed(pcr_of(packet)),
            buffer: joined(self.buffer, self.capacity, packet),
            stats: if self.buffer.len() >= self.capacity {
                Stats { dropped_packets: raised(self.stats.dropped_packets, 1), ..self.stats }
            } else {
                self.stats
            },
            ..self
        }.depth_noted().armed(now)
    }

    /// Packets held, in whatever part of the scheduler holds them.
    pub open spec fn held(self) -> usize {
        let waiting = match self.grid {
            Some(grid) => capped_count(grid.placed.len() + grid.run.len()),
            None => self.buffer.len() as usize,
        };
        capped_count((waiting + self.deferred.len()) as nat)
    }

    /// The deepest the buffer has been, kept.
    pub open spec fn depth_noted(self) -> State {
        State {
            stats: Stats {
                buffer_high_water: larger(self.stats.buffer_high_water, self.held() as u64),
                ..self.stats
            },
            ..self
        }
    }

    /// The depths derived anew from the arrival pattern. The cushion may fall as
    /// well as rise; the bounds only rise.
    pub open spec fn resized(self) -> State {
        if self.latency is Adaptive {
            let target = self.latency.cushion(self.arrivals.lead());
            let capacity = larger_count(packets_for(self.latency.bound(target), self.rate), 1);
            State {
                target,
                latency_packets: packets_for(target, self.rate) as u64,
                max_latency_packets: larger(self.max_latency_packets, capacity as u64),
                capacity: larger_count(self.capacity, capacity),
                grid: match self.grid {
                    Some(grid) => Some(
                        Placement { capacity: larger_count(grid.capacity, capacity), ..grid },
                    ),
                    None => None,
                },
                ..self
            }
        } else {
            self
        }
    }

    /// Whether an unstarted output clock may start at `now`: the cushion is full
    /// and the input is between deliveries, or the wait has gone on long enough.
    pub open spec fn may_start(self, now: Nanos, deadline: Nanos) -> bool {
        let primed = self.held() as u64 >= self.latency_packets;
        let settled = !self.arrivals.bursty() || self.arrivals.idle(now);
        let expired = self.first_content_at matches Some(first) && elapsed(first, now) >= deadline;
        (primed && settled) || expired
    }

    /// The output clock started if it is time to.
    pub open spec fn armed(self, now: Nanos) -> State {
        if self.anchor is Some {
            self
        } else {
            match self.latency.start_deadline() {
                None => self.started(lasting(now + self.target)),
                Some(deadline) => if self.may_start(now, deadline) {
                    self.started(now)
                } else {
                    self
                },
            }
        }
    }

    /// Both clocks anchored at `at`.
    pub open spec fn started(self, at: Nanos) -> State {
        State {
            anchor: Some(at),
            media: MediaClock { anchor: Some(at), ..self.media },
            ..self
        }
    }

    /// An unstarted clock given the chance to start without a packet. Pinned depths
    /// start on a packet or not at all.
    pub open spec fn polled(self, now: Nanos) -> State {
        if self.first_content_at is Some && self.latency.start_deadline() is Some {
            self.armed(now)
        } else {
            self
        }
    }

    /// An unstarted clock started whatever the cushion holds.
    pub open spec fn forced(self, now: Nanos) -> State {
        if self.anchor is Some {
            self
        } else {
            self.started(now)
        }
    }

    /// What was held back for a closing PCR, placed.
    pub open spec fn flushed(self) -> State {
        match self.grid {
            Some(grid) => State {
                grid: Some(grid.flushed()),
                stats: Stats {
                    dropped_packets: raised(
                        self.stats.dropped_packets,
                        grid.closing_drops() as int,
                    ),
                    ..self.stats
                },
                ..self
            },
            None => self,
        }
    }

    /// Content returns after a stall. The media clock restarts so that the
    /// refilled buffer is released at media rate; the output clock ran through the
    /// gap, and the next PCR says that the media timeline has a hole in it.
    pub open spec fn resumed(self, now: Nanos) -> State {
        let awake = State {
            stalled: false,
            regen: match self.regen {
                Some(regen) => Some(PcrRegen { flag_next: true, ..regen }),
                None => None,
            },
            ..self
        };
        if self.grid is Some {
            awake
        } else {
            State { media: self.media.restarted(lasting(now + self.target)), ..awake }
        }
    }

    // --- liveness ---------------------------------------------------------------

    /// Whether any content remains to be emitted.
    pub open spec fn pending(self) -> bool {
        self.deferred.len() > 0 || match self.grid {
            Some(grid) => grid.placed.len() > 0,
            None => self.buffer.len() > 0,
        }
    }

    /// How long the input has carried no content.
    pub open spec fn silence(self, now: Nanos) -> Nanos {
        match self.last_content_at {
            Some(last) => elapsed(last, now),
            None => 0,
        }
    }

    /// What the input is doing at `now`.
    pub open spec fn source(self, now: Nanos) -> SourceState {
        let running = self.anchor matches Some(anchor) && now >= anchor;
        if self.last_content_at is None || !running {
            SourceState::Priming
        } else if self.pending() {
            SourceState::Live
        } else if self.stall.limit(self.target) matches Some(limit) && self.silence(now) >= limit {
            SourceState::Stalled
        } else if self.silence(now) >= self.target {
            SourceState::Starved
        } else {
            SourceState::Live
        }
    }

    /// The silence up to `now` kept as a content gap, if it is the longest.
    pub open spec fn gap_noted(self, now: Nanos) -> State {
        if self.last_content_at is None {
            self
        } else {
            State {
                stats: Stats {
                    content_gap_max_ms: larger(
                        self.stats.content_gap_max_ms,
                        in_millis(self.silence(now)),
                    ),
                    ..self.stats
                },
                ..self
            }
        }
    }

    /// The state of the input at `now` folded into the stall bookkeeping.
    pub open spec fn observed(self, now: Nanos) -> State {
        if self.source(now) is Stalled {
            let counted = State {
                stats: Stats {
                    stalls: if self.stalled {
                        self.stats.stalls
                    } else {
                        raised(self.stats.stalls, 1)
                    },
                    ..self.stats
                },
                ..self
            };
            State { stalled: true, ..counted.gap_noted(now) }
        } else {
            State { stalled: false, ..self }
        }
    }

    /// A datagram's worth of slots skipped at `now`.
    pub open spec fn muted(self, now: Nanos) -> State {
        let seen = self.observed(now);
        State {
            slot: raised(seen.slot, self.per_datagram as int),
            stats: Stats {
                muted_packets: raised(seen.stats.muted_packets, self.per_datagram as int),
                ..seen.stats
            },
            ..seen
        }
    }

    // --- output -----------------------------------------------------------------

    /// When the next datagram is due.
    pub open spec fn due(self) -> Option<Nanos> {
        match self.anchor {
            Some(anchor) => Some(
                lasting(anchor + time_for(beyond(self.anchor_slot, self.slot), self.rate)),
            ),
            None => None,
        }
    }

    /// Where the next datagram sits in the stream.
    pub open spec fn framing(self) -> Option<Framing> {
        match self.grid {
            Some(grid) => Some(
                Framing {
                    slot: self.slot,
                    sequence: ((self.slot / self.per_datagram as u64 + self.sequence_seed)
                        % 0x1_0000) as u16,
                    timestamp_90khz: (grid.map.pcr(self.slot) as int / 300 % 0x1_0000_0000) as u32,
                },
            ),
            None => None,
        }
    }

    /// The output clock moved to the live edge where the leg holds more stream than
    /// its buffer may be deep.
    pub open spec fn caught_up(self, now: Nanos) -> State {
        match self.grid {
            Some(grid) if grid.placed.len() > 0 => {
                let edge = grid.placed.last().0;
                let back = beyond(self.latency_packets, edge);
                let at = floor_to(back, self.per_datagram as u64);
                if beyond(self.slot, edge) <= self.max_latency_packets || at <= self.slot {
                    self
                } else {
                    State {
                        anchor: Some(now),
                        anchor_slot: at,
                        slot: at,
                        deferred: Seq::empty(),
                        stats: Stats {
                            late_drops: raised(self.stats.late_drops, self.deferred.len() as int),
                            resyncs: raised(self.stats.resyncs, 1),
                            ..self.stats
                        },
                        ..self
                    }
                }
            },
            _ => self,
        }
    }

    /// At most one packet moved from the input side into the emission queue, for
    /// the slot the output is at.
    pub open spec fn admitted(self, wanted: bool) -> State {
        match self.grid {
            Some(grid) => {
                let asked = State {
                    grid: Some(grid.taken(self.slot)),
                    stats: Stats {
                        late_drops: raised(
                            self.stats.late_drops,
                            overdue(grid.placed, self.slot) as int,
                        ),
                        ..self.stats
                    },
                    ..self
                };
                match grid.due_at(self.slot) {
                    Some(packet) => asked.released(packet),
                    None => asked,
                }
            },
            None => if wanted && self.buffer.len() > 0 {
                State { buffer: self.buffer.drop_first(), ..self }.released(self.buffer.first())
            } else {
                self
            },
        }
    }

    /// `packet` released by its clock, awaiting transmission.
    pub open spec fn released(self, packet: Seq<u8>) -> State {
        State {
            media: MediaClock { released: raised(self.media.released, 1), ..self.media },
            deferred: self.deferred.push(packet),
            ..self
        }
    }

    /// The PCR to insert in the slot the output is at: none while the source is
    /// stalled, in preserve mode, before a PCR has gone out, inside the repetition
    /// limit, or where the packet waiting for the slot carries one of its own.
    pub open spec fn insertion(self, stalled: bool) -> Option<u64> {
        match (self.regen, self.last_pcr_index) {
            (Some(regen), Some(last)) => if stalled || self.pcr_pid is None || beyond(
                last,
                self.slot,
            ) < self.pcr_spacing || (self.deferred.len() > 0 && pcr_of(self.deferred.first())
                is Some) {
                None
            } else {
                match self.grid {
                    Some(grid) => Some(grid.map.pcr(self.slot)),
                    None => match regen.anchor {
                        Some(anchor) => Some(locked_pcr(anchor, regen.mux_rate_bps, self.slot)),
                        None => None,
                    },
                }
            },
            _ => None,
        }
    }

    /// The bytes that content `packet` goes out as in the slot the output is at.
    pub open spec fn content_bytes(self, packet: Seq<u8>) -> Seq<u8> {
        match (self.regen, self.grid) {
            (Some(regen), Some(grid)) => regen.rewritten_absolute(
                packet,
                grid.map.pcr(self.slot),
            ),
            (Some(regen), None) => regen.rewritten(packet, self.slot),
            (None, _) => packet,
        }
    }

    /// Content `packet`, the one waiting longest, transmitted.
    pub open spec fn content_sent(self, packet: Seq<u8>) -> State {
        State {
            deferred: self.deferred.drop_first(),
            pcr_pid_cc: if self.pcr_pid == Some(pid_of(packet)) {
                (packet[3] as int % 16) as u8
            } else {
                self.pcr_pid_cc
            },
            regen: match (self.regen, self.grid) {
                (Some(regen), Some(_)) => Some(regen.after_rewrite_absolute(packet)),
                (Some(regen), None) => Some(regen.after_rewrite(packet, self.slot)),
                (None, _) => None,
            },
            last_pcr_index: if pcr_of(packet) is Some {
                Some(self.slot)
            } else {
                self.last_pcr_index
            },
            stats: Stats {
                content_packets: raised(self.stats.content_packets, 1),
                pcr_rebases: if self.rebasing(packet) {
                    raised(self.stats.pcr_rebases, 1)
                } else {
                    self.stats.pcr_rebases
                },
                ..self.stats
            },
            ..self
        }
    }

    /// Whether transmitting `packet` re-bases the regenerated clock.
    pub open spec fn rebasing(self, packet: Seq<u8>) -> bool {
        match (self.regen, self.grid, pcr_of(packet)) {
            (Some(regen), None, Some(src)) => regen.rebases(src),
            _ => false,
        }
    }

    /// The next output packet, with `due` content packets released by the media
    /// clock so far and the input stalled or not.
    pub open spec fn packet_out(self, due: u64, stalled: bool) -> Seq<u8> {
        let ready = self.admitted(self.media.released < due);
        match ready.insertion(stalled) {
            Some(pcr) => pcr_only_bytes(ready.pcr_pid->Some_0, ready.pcr_pid_cc, pcr as int),
            None => if ready.deferred.len() > 0 {
                ready.content_bytes(ready.deferred.first())
            } else {
                null_bytes()
            },
        }
    }

    /// The state once that packet has gone out.
    pub open spec fn packet_sent(self, due: u64, stalled: bool) -> State {
        let wanted = self.media.released < due;
        let ready = self.admitted(wanted);
        match ready.insertion(stalled) {
            Some(_) => State {
                last_pcr_index: Some(ready.slot),
                stats: Stats {
                    pcr_inserted: raised(ready.stats.pcr_inserted, 1),
                    ..ready.stats
                },
                ..ready
            },
            None => if ready.deferred.len() > 0 {
                ready.content_sent(ready.deferred.first())
            } else {
                State {
                    stats: Stats {
                        null_packets: raised(ready.stats.null_packets, 1),
                        underruns: if wanted && !stalled {
                            raised(ready.stats.underruns, 1)
                        } else {
                            ready.stats.underruns
                        },
                        ..ready.stats
                    },
                    ..ready
                }
            },
        }.stepped()
    }

    /// The output one slot further on.
    pub open spec fn stepped(self) -> State {
        State {
            slot: raised(self.slot, 1),
            stats: Stats { output_packets: raised(self.stats.output_packets, 1), ..self.stats },
            ..self
        }
    }

    /// The state after `n` output packets.
    pub open spec fn packets_sent(self, n: nat, due: u64, stalled: bool) -> State
        decreases n,
    {
        if n == 0 {
            self
        } else {
            self.packets_sent((n - 1) as nat, due, stalled).packet_sent(due, stalled)
        }
    }

    /// The bytes of `n` output packets.
    pub open spec fn packets_out(self, n: nat, due: u64, stalled: bool) -> Seq<u8>
        decreases n,
    {
        if n == 0 {
            Seq::empty()
        } else {
            self.packets_out((n - 1) as nat, due, stalled) + self.packets_sent(
                (n - 1) as nat,
                due,
                stalled,
            ).packet_out(due, stalled)
        }
    }

    /// The state from which a datagram is emitted at `now`: on the live edge, its
    /// credit up to date, its stall bookkeeping done.
    pub open spec fn opened(self, now: Nanos) -> State {
        let caught = self.caught_up(now);
        State {
            media: caught.media.ticked_to(now, caught.buffer.len() as usize, caught.target),
            ..caught
        }.observed(now)
    }

    /// The datagram emitted at `now`.
    pub open spec fn datagram(self, now: Nanos) -> Seq<u8> {
        let open = self.opened(now);
        open.packets_out(self.per_datagram as nat, open.media.owed(now), open.stalled)
    }

    /// The state once it has gone out.
    pub open spec fn emitted(self, now: Nanos) -> State {
        let open = self.opened(now);
        open.packets_sent(self.per_datagram as nat, open.media.owed(now), open.stalled)
    }

    // --- readings ---------------------------------------------------------------

    /// Whether placement has run past the source's grid by more than the buffer can
    /// absorb.
    pub open spec fn diverged(self) -> bool {
        self.grid matches Some(grid) && grid.displacement > self.max_latency_packets
    }

    /// The counters, and what is read from live state beside them.
    pub open spec fn snapshot(self) -> Stats {
        Stats {
            burst_max_packets: self.arrivals.burst_peak(),
            bursts: self.arrivals.bursts,
            arrival_lead_ms: in_millis(self.arrivals.lead()),
            latency_target_ms: in_millis(self.target),
            media_rate_bps: capped(
                self.media.basis() * PACKET_BITS / NANOS_PER_SEC as int,
            ),
            buffer_packets: self.held() as u64,
            rate_decayed_packets: self.media.decayed_packets,
            rate_decayed_secs: self.media.decayed_nanos,
            rate_intervals: self.media.intervals,
            rate_pcrs_seen: self.media.pcrs_seen,
            rate_max_packets_in_interval: self.media.max_packets_in_interval,
            rate_sub_ms_intervals: self.media.sub_ms_intervals,
            rate_clock_stalled: self.media.stalled(),
            rate_pending_packets: capped(
                self.media.pending_packets + self.media.frozen_packets,
            ),
            pcr_position_displacement_ms: in_millis(
                time_for(self.stats.pcr_position_displacement, self.rate),
            ),
            ..self.stats
        }
    }
}

} // verus!
