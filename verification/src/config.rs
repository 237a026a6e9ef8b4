//! Pacer configuration.

use vstd::prelude::*;

use crate::arith::{at_longest, larger_count, longer, summed, Nanos, Ratio, LONGEST};
use crate::error::Error;

verus! {

/// How the pacer treats the PCR (Program Clock Reference) already present in the
/// input.
///
/// The choice depends on the downstream receiver, not on the source transport:
///
/// - [`PcrMode::Preserve`] leaves every PCR value byte-for-byte untouched and
///   only paces transmission. A soft IRD / player that recovers the clock from
///   PCR *values* and re-buffers plays this back cleanly. Note that once null
///   packets are stuffed to hit the target rate, a preserved PCR no longer sits
///   at the byte position a constant-rate demuxer would expect, so a hardware
///   IRD that checks PCR-vs-byte accuracy (`tsp -P pcrverify`) will flag it.
/// - [`PcrMode::Regenerate`] rewrites each PCR-bearing packet's PCR to the value
///   implied by its byte offset at the target rate, so `PCR == byte_offset * 8 *
///   27_000_000 / bitrate` by construction. This is what a CBR/ASI hardware IRD's
///   PCR-accuracy and repetition checks require. Only the six PCR octets (and the
///   discontinuity indicator across a genuine source discontinuity) are touched;
///   PID structure, continuity counters, and PSI/PES payloads are preserved.
#[derive(Clone, Copy, Debug, PartialEq, Eq, Structural)]
pub enum PcrMode {
    /// Keep source PCR values verbatim; pace transmission only.
    Preserve,
    /// Byte-lock PCR to the output rate for hardware-IRD PCR accuracy.
    Regenerate,
}

/// What the pacer does once its input has been silent for longer than
/// [`Config::stall`] allows.
///
/// A pacer holds the wire at a constant rate by stuffing null packets, which is
/// exactly right for absorbing transport jitter and exactly wrong for absorbing
/// the *absence* of a source: left alone, it emits a byte-perfect carrier - valid
/// transport, correct rate, PCR present - carrying no programme at all, for as
/// long as it is left running. Downstream monitoring and 1+1 receivers key on
/// packet arrival, loss and continuity, all of which read healthy, so a dead feed
/// looks like a live one. This enum is where that is decided explicitly.
#[derive(Clone, Copy, Debug, PartialEq, Eq, Structural)]
pub enum StallPolicy {
    /// Stop emitting while the input is stalled, then resume when content
    /// returns. The task stays alive and the output byte clock keeps running
    /// through the gap, so the regenerated PCR is still wall-clock-aligned on
    /// resume. Downstream sees the carrier stop, which is what an IRD input
    /// failover or an ST 2022-7 receiver can actually detect.
    Mute,

    /// Keep emitting the constant-bitrate carrier through the stall. The output
    /// stays at rate with no programme in it, so nothing downstream that keys on
    /// packet arrival can tell the source has gone; use it only where something
    /// else supervises content liveness and the carrier must not drop. Even here
    /// the pacer stops inserting its own PCR while stalled, so the stream does not
    /// claim a clock it no longer has.
    Continue,

    /// Stop and return [`Error::SourceStalled`](crate::Error::SourceStalled), so a
    /// supervisor (a process manager, or the gateway that spawned the pacer) makes
    /// the decision.
    Fail,
}

/// What decides *which* packet occupies each output slot.
///
/// Both modes hold the wire at the configured constant rate, and in both the wall
/// clock decides *when* a slot is transmitted. They differ in whether the wall
/// clock also decides *what* goes in it.
#[derive(Clone, Copy, Debug, PartialEq, Eq, Structural)]
pub enum Clocking {
    /// Release content at the media rate recovered from the source PCR, measured
    /// against the pacer's own emit clock, and stuff the remaining slots.
    ///
    /// Correct for a single output, and the mode every published measurement in
    /// this crate was made in. Its content/stuffing interleave depends on the
    /// instant each datagram is emitted, so two pacers fed the same input over
    /// independent paths produce different - though individually valid - output.
    Arrival,

    /// Place every packet on the absolute slot its source PCR implies at the
    /// locked mux rate, independent of arrival time, start time and emit jitter.
    ///
    /// Two pacers in this mode fed the same objects emit the same bytes in the
    /// same slots, which is what an ST 2022-7 receiver needs from a redundant
    /// pair built out of two independent chains. It also makes a leg's numbering
    /// a property of the stream rather than of the leg, so one that starts late,
    /// or stops and returns, lands on the grid its partner is already using.
    ///
    /// Requires [`Bitrate::Constant`] - an auto rate measured from an arrival
    /// window is exactly the kind of per-process quantity this mode exists to
    /// remove - and [`PcrMode::Regenerate`], since the emitted PCR *is* the slot
    /// position. The source must carry PCR; without it there is no grid.
    Stream,
}

/// How deep the de-jitter buffer is: explicit depths, or depths derived from the
/// arrival pattern the input turns out to have.
///
/// Burst granularity differs by two orders of magnitude between data planes. A
/// MoQ egress arrives in ~12 kB bursts whose worst silence is around 150 ms, so
/// milliseconds of buffer are enough. A segmented-HTTP egress carrying the same
/// programme arrives in megabyte bursts with silences of several seconds, so it
/// needs seconds. A groomer that only tolerates one of those patterns is a
/// groomer for one data plane, and the depth is the whole difference.
#[derive(Clone, Copy, Debug, PartialEq, Eq, Structural)]
pub enum Latency {
    /// Exactly these depths, whatever the input does.
    ///
    /// `target` is the priming cushion and the steady-state depth the scheduler
    /// aims to hold; `max` is the hard cap past which input is dropped oldest-
    /// first. Output starts one `target` after the first packet arrives.
    ///
    /// Use this when the arrival pattern is known - a segment duration fixed by
    /// the packager, say - or when the depth must not be a property of the run,
    /// which is why [`Clocking::Stream`] requires it.
    Fixed {
        /// Priming cushion and steady-state target depth.
        target: Nanos,
        /// Hard cap on buffered media.
        max: Nanos,
    },

    /// Sized from how far ahead of real time the input delivers.
    ///
    /// The pacer measures the *lead* its input builds - the media it hands over
    /// faster than real time, which is precisely the occupancy the arrival
    /// pattern forces - and holds `lead * factor`, bounded by `floor` and
    /// `ceiling`. A continuous feed delivered at the media rate never gets ahead,
    /// so it settles on `floor` and behaves as it always has; a feed that arrives
    /// one segment at a time settles on a multiple of the segment duration.
    ///
    /// `factor` covers the difference between a normal gap and the worst one. A
    /// segment-fetching client that misses a publish cycle waits two segment
    /// periods rather than one, so the default leaves room for roughly double.
    ///
    /// The output start is gated on content rather than on a timer here: a burst
    /// whose size is not yet known cannot size a cushion, so the pacer waits for
    /// the delivery to finish before committing to a depth, up to `ceiling`.
    Adaptive {
        /// Depth never goes below this, so a continuous feed is unaffected.
        floor: Nanos,
        /// Depth never goes above this, which also bounds the start deadline.
        ceiling: Nanos,
        /// Multiple of the observed lead to hold.
        factor: Ratio,
    },
}

/// When silence stops being jitter and starts being a dead source.
#[derive(Clone, Copy, Debug, PartialEq, Eq, Structural)]
pub enum Stall {
    /// Never. Silence is absorbed for as long as it lasts.
    Off,

    /// After exactly this long without content.
    After(Nanos),

    /// Once the cushion is spent and `grace` has passed on top of it.
    ///
    /// The cushion is what the pacer is *prepared* to ride out, so the timeout
    /// belongs on the far side of it: a feed holding four seconds of programme
    /// has not lost its source at one second of silence, and a feed holding two
    /// hundred milliseconds has. Deriving it removes the failure mode where
    /// raising the buffer for a segmented input leaves the stall timeout an order
    /// of magnitude too tight, and mutes the carrier through every ordinary
    /// inter-segment gap.
    Adaptive {
        /// Grace on top of the cushion before the source counts as gone.
        grace: Nanos,
    },
}

/// The output bitrate target: an explicit constant rate, or one derived
/// automatically from the source.
#[derive(Clone, Copy, Debug, PartialEq, Eq, Structural)]
pub enum Bitrate {
    /// Exact constant output rate, in bits per second, measured over the full
    /// 188-byte packets (content plus stuffing).
    Constant(u64),

    /// Derive the output rate from the source's measured content bitrate, times
    /// `1 + headroom`. The rate is measured over a short warm-up window (a few
    /// PCR samples) and then locked for the rest of the run, so the output is
    /// still true CBR.
    ///
    /// This recovers the source's true *content* rate, not a padded original mux
    /// rate: MoQ (and most IP transports) carry only media and strip the
    /// source's null stuffing, so the original mux rate no longer exists by the
    /// time packets reach the pacer. `headroom` (15 parts in 100 for +15%) leaves
    /// slack above the measured average for VBR peaks and the pacer's own
    /// stuffing. Too little risks buffer overflow on peaks; too much wastes
    /// bandwidth on nulls. When the source has no usable PCR to measure, the
    /// rate falls back to [`DEFAULT_AUTO_FALLBACK`].
    Auto {
        /// Fractional headroom above the measured content rate (15 parts in 100 = +15%).
        headroom: Ratio,
    },
}

/// What the pacer does once the source's PCR byte positions have strayed from its
/// PCR values by more than the buffer can absorb.
///
/// Only meaningful under [`Clocking::Stream`], which is what places packets by
/// those values. Placement that runs that far past the source's own grid loses
/// programme, over an output that still passes every check on its clock.
#[derive(Clone, Copy, Debug, PartialEq, Eq, Structural)]
pub enum PcrPositionPolicy {
    /// Count it in the statistics and carry on. The same behaviour absorbs a
    /// genuine rate peak, and a peak is legitimate.
    Report,
    /// Stop and return [`Error::SourcePcrPosition`](crate::Error::SourcePcrPosition).
    Fail,
}

/// Configuration for a pacing run.
///
/// Construct with [`Config::new`] (an explicit target bitrate) or
/// [`Config::auto`] (derive the rate from the source), then refine with the
/// `with_*` setters. The struct is `#[non_exhaustive]` so future options can be
/// added without a breaking change; build it through the constructors rather than
/// a struct literal.
#[derive(Clone, Copy, Debug)]
#[non_exhaustive]
pub struct Config {
    /// Output bitrate target: a fixed [`Bitrate::Constant`] rate or
    /// [`Bitrate::Auto`] measured from the source. A constant rate must be at
    /// least the peak instantaneous input rate or the jitter buffer will
    /// overflow.
    pub bitrate: Bitrate,

    /// How deep the de-jitter buffer is: explicit depths, or depths derived from
    /// the arrival pattern. See [`Latency`].
    pub latency: Latency,

    /// How the PCR is handled. See [`PcrMode`].
    pub pcr: PcrMode,

    /// Number of 188-byte packets coalesced into each output datagram. The
    /// broadcast default is 7 (7 * 188 = 1316 bytes, the standard MPEG-TS-over-
    /// UDP/RTP payload that fits a 1500-byte MTU).
    pub packets_per_datagram: usize,

    /// Maximum PCR repetition interval to hold on the output (TR 101 290 P1 caps
    /// this at 40 ms). Under [`PcrMode::Regenerate`], when the source's PCR is
    /// sparser than this, the pacer inserts extra byte-locked PCR-only packets on
    /// the PCR PID so a hardware IRD's PLL never starves. An inserted packet takes
    /// its slot whatever else wanted it, and content that did waits. Ignored under
    /// [`PcrMode::Preserve`], which inherits the source's PCR cadence untouched.
    pub pcr_max_interval: Nanos,

    /// When the input's silence stops being jitter and starts being a dead source,
    /// at which point [`Config::stall_policy`] applies. See [`Stall`].
    ///
    /// However it is set, it must comfortably exceed the worst recovery the
    /// transport does invisibly - a relay reselect, a reconnect, the wait for the
    /// next segment to be published - or the pacer will tear down the carrier for
    /// the very events it exists to absorb.
    pub stall: Stall,

    /// What to do once the input has been silent past [`Config::stall`].
    /// See [`StallPolicy`].
    pub stall_policy: StallPolicy,

    /// What decides which packet occupies each output slot. See [`Clocking`].
    pub clocking: Clocking,

    /// Added to the slot-derived RTP sequence number in [`Clocking::Stream`], so
    /// a pair can be offset as a whole without either leg's numbering ceasing to
    /// be a function of stream position. Both legs of a pair must use the same
    /// seed. Ignored in [`Clocking::Arrival`].
    pub sequence_seed: u16,

    /// Whether a source whose PCR positions stray from its PCR values ends the
    /// run. See [`PcrPositionPolicy`].
    pub pcr_position_policy: PcrPositionPolicy,
}

/// Default packets per output datagram: 7 * 188 = 1316 bytes.
pub const DEFAULT_PACKETS_PER_DATAGRAM: usize = 7;

/// Default de-jitter cushion floor, and the depth an explicit
/// [`Latency::Fixed`] gets when only its cap is set: 200 ms.
///
/// A continuous feed's lead never approaches this, so it is the depth every
/// rate-matched input ends up with.
pub const DEFAULT_LATENCY: Nanos = 200_000_000;

/// Default hard latency bound, and the floor under an adaptive cap: 2 s.
pub const DEFAULT_MAX_LATENCY: Nanos = 2_000_000_000;

/// Default ceiling on an adaptively sized cushion, and so on the wait before
/// output starts: 8 s.
///
/// Eight seconds covers a two-second segment fetched over a path that
/// occasionally misses a publish cycle and collects two segments at once, which
/// is the worst arrival pattern measured on a segmented-HTTP egress. Raise it for
/// longer segments; at ten megabits it costs about ten megabytes resident.
pub const DEFAULT_LATENCY_CEILING: Nanos = 8_000_000_000;

/// Default multiple of the observed lead to hold as the cushion, in hundredths.
///
/// A segment-fetching client that misses a publish cycle waits two segment
/// periods instead of one, so the cushion has to be about twice the lead a normal
/// cycle builds. The extra half is margin.
pub const DEFAULT_LATENCY_FACTOR: u64 = 250;

/// Default maximum PCR repetition interval (TR 101 290 P1 limit): 40 ms.
pub const DEFAULT_PCR_MAX_INTERVAL: Nanos = 40_000_000;

/// Default grace on top of the cushion before the input counts as stalled: 1 s.
///
/// One second is past the sub-second recovery an IP transport performs on its own
/// (a relay reselect, a reconnect), so it does not fire on events the pacer is
/// meant to absorb, while still declaring a dead source inside the window an IRD
/// input-failover would notice.
pub const DEFAULT_STALL_GRACE: Nanos = 1_000_000_000;

/// Default headroom for [`Bitrate::Auto`], in hundredths: 15% above the measured
/// content rate.
pub const DEFAULT_AUTO_HEADROOM: u64 = 15;

/// Fallback output rate for [`Bitrate::Auto`] when the source carries no usable
/// PCR to measure (bits per second).
pub const DEFAULT_AUTO_FALLBACK: u64 = 4_000_000;

impl Default for PcrMode {
    fn default() -> (r: Self)
        ensures
            r == PcrMode::Regenerate,
    {
        PcrMode::Regenerate
    }
}

impl Default for StallPolicy {
    fn default() -> (r: Self)
        ensures
            r == StallPolicy::Mute,
    {
        StallPolicy::Mute
    }
}

impl Default for Clocking {
    fn default() -> (r: Self)
        ensures
            r == Clocking::Arrival,
    {
        Clocking::Arrival
    }
}

impl Default for PcrPositionPolicy {
    fn default() -> (r: Self)
        ensures
            r == PcrPositionPolicy::Report,
    {
        PcrPositionPolicy::Report
    }
}

impl Default for Latency {
    fn default() -> (r: Self)
        ensures
            r == Latency::standard(),
            r.wf(),
    {
        Latency::Adaptive {
            floor: DEFAULT_LATENCY,
            ceiling: DEFAULT_LATENCY_CEILING,
            factor: Ratio::percent(DEFAULT_LATENCY_FACTOR),
        }
    }
}

impl Latency {
    /// Adaptive sizing between the default floor and the default ceiling.
    pub open spec fn standard() -> Latency {
        Latency::Adaptive {
            floor: DEFAULT_LATENCY,
            ceiling: DEFAULT_LATENCY_CEILING,
            factor: Ratio { numerator: DEFAULT_LATENCY_FACTOR, denominator: 100 },
        }
    }

    /// An adaptive cushion has a range to move in and a multiple to scale by.
    pub open spec fn wf(self) -> bool {
        match self {
            Latency::Fixed { .. } => true,
            Latency::Adaptive { floor, ceiling, factor } => floor <= ceiling && factor.wf(),
        }
    }

    /// The cushion held against a lead of `lead`.
    pub open spec fn cushion(self, lead: Nanos) -> Nanos {
        match self {
            Latency::Fixed { target, .. } => target,
            Latency::Adaptive { floor, ceiling, factor } => {
                let wanted = at_longest(factor.of(lead as int));
                if wanted < floor {
                    floor
                } else if wanted > ceiling {
                    ceiling
                } else {
                    wanted
                }
            },
        }
    }

    /// The hard cap on buffered media around a cushion of `target`.
    pub open spec fn bound(self, target: Nanos) -> Nanos {
        match self {
            Latency::Fixed { max, .. } => max,
            Latency::Adaptive { .. } => longer(at_longest(target * 2), DEFAULT_MAX_LATENCY),
        }
    }

    /// The cushion to hold, given the lead the input has been observed to build.
    ///
    /// `lead` is ignored under [`Latency::Fixed`], which is the point of it.
    pub fn target(&self, lead: Nanos) -> (r: Nanos)
        requires
            self.wf(),
        ensures
            r == self.cushion(lead),
    {
        match *self {
            Latency::Fixed { target, .. } => target,
            Latency::Adaptive { floor, ceiling, factor } => {
                let wanted: Nanos = factor.scale(lead);
                if wanted < floor {
                    floor
                } else if wanted > ceiling {
                    ceiling
                } else {
                    wanted
                }
            },
        }
    }

    /// The hard cap on buffered media, given the cushion in force.
    ///
    /// Under an adaptive cushion the cap is twice the target: the pacer overshoots
    /// its target by at most one delivery while waiting to start, and a path that
    /// occasionally hands over two segments at once needs room for the second.
    /// [`DEFAULT_MAX_LATENCY`] is the floor, so a continuous feed keeps that cap
    /// rather than having it tightened around its small lead.
    pub fn cap(&self, target: Nanos) -> (r: Nanos)
        ensures
            r == self.bound(target),
    {
        match *self {
            Latency::Fixed { max, .. } => max,
            Latency::Adaptive { .. } => longer(summed(target, target), DEFAULT_MAX_LATENCY),
        }
    }

    /// The longest the pacer will hold output back waiting to size its cushion.
    /// `None` under [`Latency::Fixed`], which starts on a timer instead.
    #[verifier::allow_in_spec]
    pub fn start_deadline(&self) -> Option<Nanos>
        returns
            (match *self {
                Latency::Fixed { .. } => None,
                Latency::Adaptive { ceiling, .. } => Some(ceiling),
            }),
    {
        match *self {
            Latency::Fixed { .. } => None,
            Latency::Adaptive { ceiling, .. } => Some(ceiling),
        }
    }
}

impl Default for Stall {
    fn default() -> (r: Self)
        ensures
            r == (Stall::Adaptive { grace: DEFAULT_STALL_GRACE }),
    {
        Stall::Adaptive { grace: DEFAULT_STALL_GRACE }
    }
}

impl Stall {
    /// The silence that ends the source's life, around a cushion of `target`.
    pub open spec fn limit(self, target: Nanos) -> Option<Nanos> {
        match self {
            Stall::Off => None,
            Stall::After(timeout) => Some(timeout),
            Stall::Adaptive { grace } => Some(at_longest(target + grace)),
        }
    }

    /// The silence after which the source counts as gone, given the cushion in
    /// force. `None` disables stall detection.
    pub fn timeout(&self, target: Nanos) -> (r: Option<Nanos>)
        ensures
            r == self.limit(target),
    {
        match *self {
            Stall::Off => None,
            Stall::After(timeout) => Some(timeout),
            Stall::Adaptive { grace } => Some(summed(target, grace)),
        }
    }
}

impl Config {
    /// Every option at its default, around an output rate.
    pub open spec fn around(bitrate: Bitrate) -> Config {
        Config {
            bitrate,
            latency: Latency::standard(),
            pcr: PcrMode::Regenerate,
            packets_per_datagram: DEFAULT_PACKETS_PER_DATAGRAM,
            pcr_max_interval: DEFAULT_PCR_MAX_INTERVAL,
            stall: Stall::Adaptive { grace: DEFAULT_STALL_GRACE },
            stall_policy: StallPolicy::Mute,
            clocking: Clocking::Arrival,
            sequence_seed: 0,
            pcr_position_policy: PcrPositionPolicy::Report,
        }
    }

    /// Create a config for the given target `bitrate` (bits per second) with
    /// default latency, PCR regeneration, and 7-packet datagrams.
    pub fn new(bitrate: u64) -> (r: Self)
        ensures
            r == Config::around(Bitrate::Constant(bitrate)),
            r.latency.wf(),
    {
        Self::with(Bitrate::Constant(bitrate))
    }

    /// Create a config that derives the output rate from the source's measured
    /// content bitrate (see [`Bitrate::Auto`]), with [`DEFAULT_AUTO_HEADROOM`].
    ///
    /// Auto-rate adds a short measurement window before the first packet is
    /// emitted, so the effective startup latency is higher than an explicit
    /// [`Config::new`]. Prefer an explicit rate when you know it and want minimal
    /// latency.
    pub fn auto() -> (r: Self)
        ensures
            r == Config::around(
                Bitrate::Auto {
                    headroom: Ratio { numerator: DEFAULT_AUTO_HEADROOM, denominator: 100 },
                },
            ),
            r.latency.wf(),
    {
        Self::with(Bitrate::Auto { headroom: Ratio::percent(DEFAULT_AUTO_HEADROOM) })
    }

    fn with(bitrate: Bitrate) -> (r: Self)
        ensures
            r == Config::around(bitrate),
            r.latency.wf(),
    {
        Config {
            bitrate,
            latency: Latency::default(),
            pcr: PcrMode::default(),
            packets_per_datagram: DEFAULT_PACKETS_PER_DATAGRAM,
            pcr_max_interval: DEFAULT_PCR_MAX_INTERVAL,
            stall: Stall::default(),
            stall_policy: StallPolicy::default(),
            clocking: Clocking::default(),
            sequence_seed: 0,
            pcr_position_policy: PcrPositionPolicy::default(),
        }
    }

    /// Set the output bitrate target.
    pub fn with_bitrate(self, bitrate: Bitrate) -> (r: Self)
        ensures
            r == (Config { bitrate, ..self }),
    {
        Config { bitrate, ..self }
    }

    /// The resolved constant output rate, or `None` for [`Bitrate::Auto`] (which
    /// is resolved from the source at run time).
    #[verifier::allow_in_spec]
    pub fn resolved_bitrate(&self) -> Option<u64>
        returns
            (match self.bitrate {
                Bitrate::Constant(bitrate) => Some(bitrate),
                Bitrate::Auto { .. } => None,
            }),
    {
        match self.bitrate {
            Bitrate::Constant(bitrate) => Some(bitrate),
            Bitrate::Auto { .. } => None,
        }
    }

    /// Pin the de-jitter cushion to `latency`, leaving the hard cap alone.
    ///
    /// Setting a depth explicitly turns adaptive sizing *off*: an operator who has
    /// said how deep the buffer should be has said it, and a pacer that then went
    /// and chose its own would be the harder thing to reason about. Use
    /// [`Config::with_adaptive_latency`] to go back.
    pub fn with_latency(self, latency: Nanos) -> (r: Self)
        ensures
            r == (Config {
                latency: Latency::Fixed { target: latency, max: self.latency.bound(latency) },
                ..self
            }),
    {
        let max: Nanos = self.latency.cap(latency);
        Config { latency: Latency::Fixed { target: latency, max }, ..self }
    }

    /// Pin the hard upper bound on buffered media, leaving the cushion alone.
    pub fn with_max_latency(self, max_latency: Nanos) -> (r: Self)
        requires
            self.latency.wf(),
        ensures
            r == (Config {
                latency: Latency::Fixed { target: self.latency.cushion(0), max: max_latency },
                ..self
            }),
    {
        let target: Nanos = self.latency.target(0);
        Config { latency: Latency::Fixed { target, max: max_latency }, ..self }
    }

    /// Size the de-jitter buffer from the input's observed arrival pattern,
    /// between `floor` and `ceiling`. See [`Latency::Adaptive`].
    pub fn with_adaptive_latency(self, floor: Nanos, ceiling: Nanos, factor: Ratio) -> (r: Self)
        ensures
            r == (Config { latency: Latency::Adaptive { floor, ceiling, factor }, ..self }),
    {
        Config { latency: Latency::Adaptive { floor, ceiling, factor }, ..self }
    }

    /// Set the de-jitter and stall behaviour from a known segment duration.
    ///
    /// The escape hatch for a segmented input whose packager's segment duration is
    /// known: it pins the same depths adaptive sizing would converge on, without
    /// waiting to observe them, so output starts one cushion after the first
    /// packet rather than after two deliveries.
    pub fn with_segment_duration(self, segment: Nanos) -> (r: Self)
        ensures
            r == (Config { latency: Latency::for_segments(segment), ..self }),
    {
        let target: Nanos = Ratio::percent(DEFAULT_LATENCY_FACTOR).scale(segment);
        self.with_latency(target).with_max_latency(summed(target, target))
    }

    /// Set the PCR handling mode.
    pub fn with_pcr_mode(self, pcr: PcrMode) -> (r: Self)
        ensures
            r == (Config { pcr, ..self }),
    {
        Config { pcr, ..self }
    }

    /// Set the number of packets coalesced into each output datagram.
    pub fn with_packets_per_datagram(self, packets: usize) -> (r: Self)
        ensures
            r == (Config { packets_per_datagram: larger_count(packets, 1), ..self }),
    {
        Config { packets_per_datagram: larger_count(packets, 1), ..self }
    }

    /// Set the maximum PCR repetition interval (PCR re-insertion threshold).
    pub fn with_pcr_max_interval(self, interval: Nanos) -> (r: Self)
        ensures
            r == (Config { pcr_max_interval: interval, ..self }),
    {
        Config { pcr_max_interval: interval, ..self }
    }

    /// Pin the input-silence timeout, or `None` to disable stall detection.
    ///
    /// As with [`Config::with_latency`], an explicit value turns the derived one
    /// off. Note that a timeout shorter than the cushion can never fire, because
    /// buffered media is still programme going to air.
    pub fn with_stall_timeout(self, timeout: Option<Nanos>) -> (r: Self)
        ensures
            r == (Config {
                stall: match timeout {
                    Some(t) => Stall::After(t),
                    None => Stall::Off,
                },
                ..self
            }),
    {
        let stall = match timeout {
            Some(timeout) => Stall::After(timeout),
            None => Stall::Off,
        };
        Config { stall, ..self }
    }

    /// Derive the input-silence timeout from the cushion in force, plus `grace`.
    /// See [`Stall::Adaptive`].
    pub fn with_stall_grace(self, grace: Nanos) -> (r: Self)
        ensures
            r == (Config { stall: Stall::Adaptive { grace }, ..self }),
    {
        Config { stall: Stall::Adaptive { grace }, ..self }
    }

    /// Set what happens once the input is stalled. See [`StallPolicy`].
    pub fn with_stall_policy(self, policy: StallPolicy) -> (r: Self)
        ensures
            r == (Config { stall_policy: policy, ..self }),
    {
        Config { stall_policy: policy, ..self }
    }

    /// Set what decides which packet occupies each output slot. See [`Clocking`].
    pub fn with_clocking(self, clocking: Clocking) -> (r: Self)
        ensures
            r == (Config { clocking, ..self }),
    {
        Config { clocking, ..self }
    }

    /// Set the RTP sequence seed used in [`Clocking::Stream`].
    pub fn with_sequence_seed(self, seed: u16) -> (r: Self)
        ensures
            r == (Config { sequence_seed: seed, ..self }),
    {
        Config { sequence_seed: seed, ..self }
    }

    /// Set what happens once the source's PCR positions have strayed past what the
    /// buffer can absorb. See [`PcrPositionPolicy`].
    pub fn with_pcr_position_policy(self, policy: PcrPositionPolicy) -> (r: Self)
        ensures
            r == (Config { pcr_position_policy: policy, ..self }),
    {
        Config { pcr_position_policy: policy, ..self }
    }

    /// What is wrong with the combination, or `None` when it can be honoured.
    pub open spec fn refusal(self) -> Option<Refusal> {
        if self.latency matches Latency::Fixed { target, max } && target > max {
            Some(Refusal::CushionPastBound)
        } else if self.clocking != Clocking::Stream {
            None
        } else if self.resolved_bitrate() is None {
            Some(Refusal::StreamNeedsConstantRate)
        } else if self.pcr != PcrMode::Regenerate {
            Some(Refusal::StreamNeedsRegeneratedPcr)
        } else if self.latency is Adaptive {
            Some(Refusal::StreamNeedsPinnedLatency)
        } else {
            None
        }
    }

    /// Reject combinations that cannot deliver what the mode promises.
    ///
    /// [`Clocking::Stream`] exists so that two independent pacers agree; a rate
    /// measured per process, or a PCR left at its source value, would make the
    /// output depend on the process again. Failing here is better than emitting
    /// something that looks right and does not merge.
    pub fn validate(&self) -> (r: Result<(), Error>)
        ensures
            match self.refusal() {
                None => r == Ok::<(), Error>(()),
                Some(refusal) => r matches Err(Error::Config(message)) && message@
                    == refusal.wording(),
            },
    {
        if let Latency::Fixed { target, max } = self.latency {
            if target > max {
                return Err(
                    Error::Config(
                        "latency exceeds max_latency: the priming cushion is deeper than the buffer is allowed to be, so the input would be dropped to make room for itself",
                    ),
                );
            }
        }
        if self.clocking != Clocking::Stream {
            return Ok(());
        }
        if self.resolved_bitrate().is_none() {
            return Err(
                Error::Config(
                    "stream clocking needs an explicit constant bitrate: an auto rate is measured from one process's arrival window, so two legs would lock different grids",
                ),
            );
        }
        if self.pcr != PcrMode::Regenerate {
            return Err(
                Error::Config(
                    "stream clocking needs PcrMode::Regenerate: the emitted PCR is the slot position",
                ),
            );
        }
        if let Latency::Adaptive { .. } = self.latency {
            return Err(
                Error::Config(
                    "stream clocking needs an explicit latency: an adaptive cushion is measured from one leg's arrival window, so two legs would start on different slots and hold different depths, spending skew budget a receiver needs",
                ),
            );
        }
        Ok(())
    }
}

impl Latency {
    /// The depths pinned for segments of a known duration.
    pub open spec fn for_segments(segment: Nanos) -> Latency {
        let factor = Ratio { numerator: DEFAULT_LATENCY_FACTOR, denominator: 100 };
        let target = at_longest(factor.of(segment as int));
        Latency::Fixed { target, max: at_longest(target * 2) }
    }
}

/// Why a configuration is refused.
pub enum Refusal {
    /// The cushion is deeper than the buffer may be.
    CushionPastBound,
    /// Stream clocking on a measured rate.
    StreamNeedsConstantRate,
    /// Stream clocking on source PCR values.
    StreamNeedsRegeneratedPcr,
    /// Stream clocking on a measured cushion.
    StreamNeedsPinnedLatency,
}

impl Refusal {
    /// What is said of it.
    pub open spec fn wording(self) -> Seq<char> {
        match self {
            Refusal::CushionPastBound =>
            "latency exceeds max_latency: the priming cushion is deeper than the buffer is allowed to be, so the input would be dropped to make room for itself"@,
            Refusal::StreamNeedsConstantRate =>
            "stream clocking needs an explicit constant bitrate: an auto rate is measured from one process's arrival window, so two legs would lock different grids"@,
            Refusal::StreamNeedsRegeneratedPcr =>
            "stream clocking needs PcrMode::Regenerate: the emitted PCR is the slot position"@,
            Refusal::StreamNeedsPinnedLatency =>
            "stream clocking needs an explicit latency: an adaptive cushion is measured from one leg's arrival window, so two legs would start on different slots and hold different depths, spending skew budget a receiver needs"@,
        }
    }
}

/// A continuous feed, whose lead is below what the floor covers, is held at the
/// floor, and no lead pushes the cushion past the ceiling.
pub proof fn law_adaptive_cushion_stays_in_range(latency: Latency, lead: Nanos)
    requires
        latency.wf(),
        latency is Adaptive,
    ensures
        latency->floor <= latency.cushion(lead) <= latency->ceiling,
        at_longest(latency->factor.of(lead as int)) <= latency->floor ==> latency.cushion(lead)
            == latency->floor,
        latency.bound(latency.cushion(lead)) >= DEFAULT_MAX_LATENCY,
{
}

/// The derived stall timeout lies on the far side of the cushion: a feed holding a
/// cushion has not lost its source while that cushion lasts.
pub proof fn law_derived_timeout_outlasts_the_cushion(grace: Nanos, target: Nanos)
    requires
        target <= LONGEST,
    ensures
        (Stall::Adaptive { grace }).limit(target) is Some,
        (Stall::Adaptive { grace }).limit(target)->Some_0 >= target,
{
}

} // verus!
