//! The media clock: the source's own rate, recovered from its PCR, and how much
//! content that rate says should have been released.
//!
//! Rates are billionths of a packet per second, rounded up so that a whole bitrate
//! reads back whole, and credit is counted in quintillionths of a packet (a rate times
//! a nanosecond), so nothing is lost to the slot interval.

use vstd::prelude::*;

use crate::arith::{
    at_longest, cap, capped, ceil_div, larger, lemma_product_bound, product, rounded_up, together,
    Nanos, LONGEST, NANOS_PER_SEC,
};
use crate::pcr::{
    forward_delta, pcr_distance, ticks_nanos, ticks_to_duration, PCR_DISCONTINUITY_GAP,
};

verus! {

/// Media-time constant of the content-rate estimator, 2 s: how far back a PCR
/// interval still carries weight.
///
/// Long enough to span a group of pictures at broadcast frame rates, because the
/// estimator has to average over the *content* structure to see the content rate.
pub const RATE_WINDOW: Nanos = 2_000_000_000;

/// Shortest run of source time that serves as a rate sample, 1 ms. Anything
/// shorter is held until more of it has gathered.
pub const MIN_SAMPLE: Nanos = 1_000_000;

/// How hard the release rate is trimmed to hold the buffer at the cushion: one
/// part in this many, applied in full when occupancy is a full cushion away.
///
/// Small, because this is a media clock and the trim is a deliberate slew of it.
/// It only has to out-run the drift of a rate estimate, not chase a burst, which is
/// what the buffer is for.
pub const SERVO_PARTS: u64 = 20;

/// Quintillionths of a packet in a packet.
pub const CREDIT_PER_PACKET: u128 = 1_000_000_000_000_000_000;

/// A run of source time and the packets that it carried, long enough to measure a
/// rate from.
#[derive(Clone, Copy, Debug, PartialEq, Eq, Structural)]
pub struct RateSample {
    /// Packets delivered.
    pub packets: u64,
    /// Source time spanned, in nanoseconds.
    pub nanos: u64,
}

/// Recovers the source media rate from PCR deltas and paces content release.
#[derive(Clone, Copy, Debug)]
pub struct MediaClock {
    /// Wall time content packet 0 becomes eligible (first enqueue + latency).
    pub anchor: Option<Nanos>,
    /// Wall time the release credit was last advanced.
    pub ticked: Option<Nanos>,
    /// Content the release clock has authorised, in quintillionths of a packet so
    /// the rate is not quantised by the slot interval.
    pub credit: u128,
    /// Content packets released so far.
    pub released: u64,
    /// The rate to go by without a credible one of the source's own.
    pub fallback: u64,
    /// Content rate recovered from the source PCR.
    pub estimate: u64,
    /// Whether there is an estimate yet.
    pub estimated: bool,
    /// Last source PCR observed, for delta-based rate estimation.
    pub last_pcr: Option<u64>,
    /// Packets enqueued since the last PCR (the numerator of a rate sample).
    pub packets_since_pcr: u64,
    /// Packets of admitted intervals held back until they span [`MIN_SAMPLE`].
    pub pending_packets: u64,
    /// Source time of those intervals.
    pub pending_nanos: u64,
    /// Packets that arrived against a clock that did not move at all.
    pub frozen_packets: u64,
    /// Decayed packet count over [`RATE_WINDOW`], in billionths. The rate is the
    /// *ratio* of this to the next; see [`MediaClock::fold`].
    pub decayed_packets: u64,
    /// Decayed media time over [`RATE_WINDOW`].
    pub decayed_nanos: u64,
    /// PCR intervals admitted.
    pub intervals: u64,
    /// PCR-bearing packets seen.
    pub pcrs_seen: u64,
    /// Most packets carried by one admitted interval.
    pub max_packets_in_interval: u64,
    /// Admitted intervals shorter than [`MIN_SAMPLE`].
    pub sub_ms_intervals: u64,
}

/// The rate to release at: `rate`, trimmed towards whatever would return a buffer
/// holding `buffered` packets to a cushion of `cushion`.
pub open spec fn trimmed(rate: u64, buffered: usize, cushion: Nanos) -> u64 {
    let target = cushioned(rate, cushion);
    let held = buffered * NANOS_PER_SEC;
    if target == 0 {
        rate
    } else {
        let trim = trim_of(rate, held, target);
        if held >= target {
            capped(rate + trim)
        } else {
            (rate - trim) as u64
        }
    }
}

/// How far the rate moves for a buffer of `held` against a cushion of `target`,
/// both in billionths of a packet: a [`SERVO_PARTS`]th of it at a full cushion's
/// distance, and in proportion below that.
pub open spec fn trim_of(rate: u64, held: int, target: int) -> int {
    let away = if held >= target {
        held - target
    } else {
        target - held
    };
    let error = (if away < target {
        away
    } else {
        target
    }) * NANOS_PER_SEC / target;
    rate * error / (SERVO_PARTS * NANOS_PER_SEC)
}

/// `sum`, weighted by `decay` parts of two to the sixty-fourth, plus `more`.
pub open spec fn decayed(sum: u64, decay: u64, more: int) -> u64 {
    capped(sum * decay / 0x1_0000_0000_0000_0000 + more)
}

impl MediaClock {
    /// A clock that has seen nothing and goes by `fallback`.
    pub open spec fn fresh(fallback: u64) -> MediaClock {
        MediaClock {
            anchor: None,
            ticked: None,
            credit: 0,
            released: 0,
            fallback,
            estimate: 0,
            estimated: false,
            last_pcr: None,
            packets_since_pcr: 0,
            pending_packets: 0,
            pending_nanos: 0,
            frozen_packets: 0,
            decayed_packets: 0,
            decayed_nanos: 0,
            intervals: 0,
            pcrs_seen: 0,
            max_packets_in_interval: 0,
            sub_ms_intervals: 0,
        }
    }

    /// The source's clock has stopped advancing usefully: more packets are waiting
    /// on it than the fallback rate carries in the estimator's whole window.
    pub open spec fn stalled(self) -> bool {
        (self.pending_packets + self.frozen_packets) * NANOS_PER_SEC * NANOS_PER_SEC > self.fallback
            * RATE_WINDOW
    }

    /// The rate recovered from the source, where there is one and its clock is
    /// still credible.
    pub open spec fn recovered(self) -> Option<u64> {
        if self.estimated && !self.stalled() {
            Some(self.estimate)
        } else {
            None
        }
    }

    /// The rate content is released at before the occupancy trim.
    pub open spec fn basis(self) -> u64 {
        match self.recovered() {
            Some(rate) => rate,
            None => self.fallback,
        }
    }

    /// The clock after a packet carrying `pcr`, if any.
    pub open spec fn observed(self, pcr: Option<u64>) -> MediaClock {
        let count = capped(self.packets_since_pcr + 1);
        match pcr {
            None => MediaClock { packets_since_pcr: count, ..self },
            Some(p) => {
                let seen = MediaClock {
                    last_pcr: Some(p),
                    packets_since_pcr: 0,
                    pcrs_seen: capped(self.pcrs_seen + 1),
                    ..self
                };
                match self.last_pcr {
                    None => seen,
                    Some(last) => seen.stepped(pcr_distance(last, p), count),
                }
            },
        }
    }

    /// The clock after the source's moved by `delta` ticks over `count` packets.
    pub open spec fn stepped(self, delta: u64, count: u64) -> MediaClock {
        let nanos = ticks_nanos(delta as int);
        if delta == 0 {
            MediaClock { frozen_packets: capped(self.frozen_packets + count), ..self }
        } else if nanos > PCR_DISCONTINUITY_GAP {
            MediaClock { frozen_packets: 0, ..self }
        } else {
            let admitted = MediaClock {
                intervals: capped(self.intervals + 1),
                max_packets_in_interval: larger(self.max_packets_in_interval, count),
                sub_ms_intervals: capped(
                    self.sub_ms_intervals + if nanos < MIN_SAMPLE {
                        1int
                    } else {
                        0int
                    },
                ),
                ..self
            };
            match self.sample_of(delta, count) {
                Some(_) => MediaClock {
                    pending_packets: 0,
                    pending_nanos: 0,
                    frozen_packets: 0,
                    ..admitted
                },
                None => MediaClock {
                    pending_packets: capped(self.pending_packets + count),
                    pending_nanos: capped(self.pending_nanos + nanos),
                    ..admitted
                },
            }
        }
    }

    /// The rate sample completed by a step of `delta` ticks over `count` packets.
    pub open spec fn sample_of(self, delta: u64, count: u64) -> Option<RateSample> {
        let nanos = ticks_nanos(delta as int);
        if delta == 0 || nanos > PCR_DISCONTINUITY_GAP || self.pending_nanos + nanos < MIN_SAMPLE {
            None
        } else {
            Some(
                RateSample {
                    packets: capped(self.pending_packets + count),
                    nanos: capped(self.pending_nanos + nanos),
                },
            )
        }
    }

    /// The rate sample completed by a packet carrying `pcr`, if any.
    pub open spec fn sample(self, pcr: Option<u64>) -> Option<RateSample> {
        match (pcr, self.last_pcr) {
            (Some(p), Some(last)) => self.sample_of(
                pcr_distance(last, p),
                capped(self.packets_since_pcr + 1),
            ),
            _ => None,
        }
    }

    /// The clock with `sample` folded into its estimate, older samples weighing
    /// `decay` parts of two to the sixty-fourth.
    pub open spec fn folded(self, sample: RateSample, decay: u64) -> MediaClock {
        let packets = decayed(self.decayed_packets, decay, sample.packets * NANOS_PER_SEC);
        let nanos = decayed(self.decayed_nanos, decay, sample.nanos as int);
        let summed = MediaClock { decayed_packets: packets, decayed_nanos: nanos, ..self };
        if nanos == 0 {
            summed
        } else {
            MediaClock {
                estimate: capped(ceil_div(packets * NANOS_PER_SEC, nanos as int)),
                estimated: true,
                ..summed
            }
        }
    }

    /// Whether the clock is running at `now`.
    pub open spec fn running(self, now: Nanos) -> bool {
        self.anchor matches Some(anchor) && now >= anchor
    }

    /// The clock with its credit brought up to `now`.
    pub open spec fn ticked_to(self, now: Nanos, buffered: usize, cushion: Nanos) -> MediaClock {
        let last = match self.ticked {
            Some(t) => t,
            None => match self.anchor {
                Some(a) => a,
                None => now,
            },
        };
        if self.running(now) && now > last {
            let earned = (now - last) * trimmed(self.basis(), buffered, cushion);
            MediaClock {
                ticked: Some(now),
                credit: if self.credit + earned > u128::MAX {
                    u128::MAX
                } else {
                    (self.credit + earned) as u128
                },
                ..self
            }
        } else {
            self
        }
    }

    /// Content packets that should have been released by `now`, the credit being
    /// up to date.
    pub open spec fn owed(self, now: Nanos) -> u64 {
        if self.running(now) {
            capped(self.credit as int / CREDIT_PER_PACKET as int + 1)
        } else {
            0
        }
    }

    /// The clock restarted at `anchor` after a stall.
    ///
    /// A rate sample taken across the gap would read as the outage length, not as
    /// a media interval, so what was gathered towards one is dropped and the sums
    /// start again on the next PCR. The estimate itself is kept.
    pub open spec fn restarted(self, anchor: Nanos) -> MediaClock {
        MediaClock {
            anchor: Some(anchor),
            ticked: None,
            credit: 0,
            released: 0,
            last_pcr: None,
            packets_since_pcr: 0,
            pending_packets: 0,
            pending_nanos: 0,
            frozen_packets: 0,
            decayed_packets: 0,
            decayed_nanos: 0,
            ..self
        }
    }

    /// A clock that goes by `fallback` until the source has shown its own rate.
    pub fn new(fallback: u64) -> (r: Self)
        ensures
            r == MediaClock::fresh(fallback),
    {
        MediaClock {
            anchor: None,
            ticked: None,
            credit: 0,
            released: 0,
            fallback,
            estimate: 0,
            estimated: false,
            last_pcr: None,
            packets_since_pcr: 0,
            pending_packets: 0,
            pending_nanos: 0,
            frozen_packets: 0,
            decayed_packets: 0,
            decayed_nanos: 0,
            intervals: 0,
            pcrs_seen: 0,
            max_packets_in_interval: 0,
            sub_ms_intervals: 0,
        }
    }

    /// Observe an enqueued packet by the PCR it carries, returning the rate sample
    /// it completes, for [`MediaClock::fold`].
    ///
    /// Zero deltas and discontinuities (loop wrap / splice) are not admitted: those
    /// don't reflect a real elapsed interval. An interval that carries almost no
    /// media time is admitted but not used on its own. It contributes packets to
    /// the numerator of a rate and almost nothing to the denominator, and decays
    /// almost nothing out, so enough of them used singly ratchet the estimate up
    /// without bound. They are held until they span [`MIN_SAMPLE`] together.
    pub fn observe(&mut self, pcr: Option<u64>) -> (sample: Option<RateSample>)
        ensures
            *final(self) == old(self).observed(pcr),
            sample == old(self).sample(pcr),
    {
        let count: u64 = self.packets_since_pcr.saturating_add(1);
        self.packets_since_pcr = count;
        let pcr: u64 = match pcr {
            Some(pcr) => pcr,
            None => {
                return None;
            },
        };
        self.packets_since_pcr = 0;
        self.pcrs_seen = self.pcrs_seen.saturating_add(1);
        let last: Option<u64> = self.last_pcr;
        self.last_pcr = Some(pcr);
        match last {
            Some(last) => self.step(forward_delta(last, pcr), count),
            None => None,
        }
    }

    /// Take in one step of the source clock and the packets that came with it.
    fn step(&mut self, delta: u64, count: u64) -> (sample: Option<RateSample>)
        ensures
            *final(self) == old(self).stepped(delta, count),
            sample == old(self).sample_of(delta, count),
    {
        let nanos: Nanos = ticks_to_duration(delta);
        if delta == 0 {
            self.frozen_packets = self.frozen_packets.saturating_add(count);
            return None;
        }
        if nanos > PCR_DISCONTINUITY_GAP {
            self.frozen_packets = 0;
            return None;
        }
        self.intervals = self.intervals.saturating_add(1);
        self.max_packets_in_interval = larger(self.max_packets_in_interval, count);
        if nanos < MIN_SAMPLE {
            self.sub_ms_intervals = self.sub_ms_intervals.saturating_add(1);
        }
        let sample: RateSample = RateSample {
            packets: self.pending_packets.saturating_add(count),
            nanos: self.pending_nanos.saturating_add(nanos as u64),
        };
        if (sample.nanos as Nanos) < MIN_SAMPLE {
            self.pending_packets = sample.packets;
            self.pending_nanos = sample.nanos;
            return None;
        }
        self.pending_packets = 0;
        self.pending_nanos = 0;
        self.frozen_packets = 0;
        Some(sample)
    }

    /// Refine the media-rate estimate by one sample. What was gathered before it
    /// keeps `decay` parts of two to the sixty-fourth of its weight.
    ///
    /// **The estimate is a ratio of sums, not a mean of ratios**, and on a
    /// media-aware source the two are not close. Averaging the per-interval rate
    /// `count / seconds` assumes each interval carries a comparable number of
    /// packets; a demuxed export does not, because a PCR interval holds either a
    /// coded frame or nothing much. Summing the packets and the media seconds
    /// separately and dividing once is unbiased however the packets are distributed
    /// between the intervals.
    pub fn fold(&mut self, sample: RateSample, decay: u64)
        ensures
            *final(self) == old(self).folded(sample, decay),
    {
        let packets: u128 = product(sample.packets, NANOS_PER_SEC);
        self.decayed_packets = weighted(self.decayed_packets, decay, packets);
        self.decayed_nanos = weighted(self.decayed_nanos, decay, sample.nanos as u128);
        if self.decayed_nanos > 0 {
            let scaled: u128 = product(self.decayed_packets, NANOS_PER_SEC);
            self.estimate = cap(rounded_up(scaled, self.decayed_nanos));
            self.estimated = true;
        }
    }

    /// Whether programme keeps arriving while the source's clock does not move.
    pub fn clock_stalled(&self) -> (r: bool)
        ensures
            r == self.stalled(),
    {
        let waiting: u128 = (self.pending_packets as u128) + (self.frozen_packets as u128);
        let carried: u128 = (self.fallback as u128) * RATE_WINDOW;
        proof {
            let w = waiting as int;
            let c = carried as int;
            let s = 1_000_000_000_000_000_000int;
            if w > c / s {
                assert(w * s > c) by (nonlinear_arith)
                    requires
                        w > c / s,
                        s == 1_000_000_000_000_000_000int,
                        c >= 0,
                ;
            } else {
                assert(w * s <= c) by (nonlinear_arith)
                    requires
                        w <= c / s,
                        s == 1_000_000_000_000_000_000int,
                        c >= 0,
                ;
            }
        }
        waiting > carried / 1_000_000_000_000_000_000
    }

    /// The content rate recovered from the source PCR, or `None` while there is no
    /// estimate or nothing to trust it by.
    ///
    /// Only a real estimate is any use for sizing a buffer against arrival: the
    /// fallback is derived from the configured mux rate, so comparing arrival
    /// against it would measure the configuration rather than the stream.
    pub fn estimated_rate(&self) -> (r: Option<u64>)
        ensures
            r == self.recovered(),
    {
        if self.estimated && !self.clock_stalled() {
            Some(self.estimate)
        } else {
            None
        }
    }

    /// The rate content is released at, before the occupancy trim: the recovered
    /// rate while the source's timebase is credible, the fallback otherwise.
    pub fn rate(&self) -> (r: u64)
        ensures
            r == self.basis(),
    {
        match self.estimated_rate() {
            Some(rate) => rate,
            None => self.fallback,
        }
    }

    /// Number of content packets that should have been released by `now`, holding
    /// the buffer, which has `buffered` packets in it, at `cushion`.
    ///
    /// **Release is a closed loop on buffer occupancy, not an open loop on the
    /// rate estimate**, and for a feed that runs permanently the difference is the
    /// whole thing. Releasing at `rate * elapsed` integrates every error in `rate`:
    /// a 2.5% under-read costs 2.5% of *uptime* in buffer depth, so occupancy and
    /// latency climb without limit and the leg eventually sheds the oldest
    /// programme to stay under its bound. No rate estimator is exact enough to fix
    /// that, because nothing bounds the integral. Correcting the release rate by
    /// the occupancy error does bound it: the loop settles where occupancy equals
    /// the cushion, which is by definition where the leg is releasing at the rate
    /// it is being delivered.
    pub fn due(&mut self, now: Nanos, buffered: usize, cushion: Nanos) -> (owed: u64)
        ensures
            *final(self) == old(self).ticked_to(now, buffered, cushion),
            owed == final(self).owed(now),
    {
        let anchor: Nanos = match self.anchor {
            Some(anchor) => anchor,
            None => {
                return 0;
            },
        };
        if now < anchor {
            return 0;
        }
        let last: Nanos = match self.ticked {
            Some(last) => last,
            None => anchor,
        };
        if now > last {
            let rate: u64 = release_rate(self.rate(), buffered, cushion);
            let spent: Nanos = now - last;
            self.ticked = Some(now);
            if rate > 0 && spent > u128::MAX / (rate as u128) {
                proof {
                    lemma_past_the_quotient(spent as int, rate as int, u128::MAX as int);
                }
                self.credit = u128::MAX;
            } else {
                proof {
                    if rate > 0 {
                        lemma_up_to_the_quotient(spent as int, rate as int, u128::MAX as int);
                    } else {
                        assert(spent * rate == 0) by (nonlinear_arith)
                            requires
                                rate == 0,
                        ;
                    }
                }
                self.credit = together(self.credit, spent * (rate as u128));
            }
        }
        let whole: u128 = self.credit / CREDIT_PER_PACKET;
        cap(whole + 1)
    }

    /// Restart the clock at `anchor`, as if nothing had been released yet.
    pub fn restart(&mut self, anchor: Nanos)
        ensures
            *final(self) == old(self).restarted(anchor),
    {
        self.anchor = Some(anchor);
        self.ticked = None;
        self.credit = 0;
        self.released = 0;
        self.last_pcr = None;
        self.packets_since_pcr = 0;
        self.pending_packets = 0;
        self.pending_nanos = 0;
        self.frozen_packets = 0;
        self.decayed_packets = 0;
        self.decayed_nanos = 0;
    }
}

/// More of `rate` than go into `most` come to more than `most`.
proof fn lemma_past_the_quotient(n: int, rate: int, most: int)
    requires
        rate > 0,
        most >= 0,
        n > most / rate,
    ensures
        n * rate > most,
{
    vstd::arithmetic::div_mod::lemma_fundamental_div_mod(most, rate);
    vstd::arithmetic::div_mod::lemma_mod_bound(most, rate);
    let q = most / rate;
    assert(n * rate > most) by (nonlinear_arith)
        requires
            n >= q + 1,
            most == rate * q + most % rate,
            most % rate < rate,
            rate > 0,
    ;
}

/// No more of `rate` than go into `most` come to no more than `most`.
proof fn lemma_up_to_the_quotient(n: int, rate: int, most: int)
    requires
        rate > 0,
        most >= 0,
        0 <= n <= most / rate,
    ensures
        0 <= n * rate <= most,
{
    vstd::arithmetic::div_mod::lemma_fundamental_div_mod(most, rate);
    vstd::arithmetic::div_mod::lemma_mod_bound(most, rate);
    let q = most / rate;
    assert(0 <= n * rate <= most) by (nonlinear_arith)
        requires
            0 <= n <= q,
            most == rate * q + most % rate,
            most % rate >= 0,
            rate > 0,
    ;
}

/// `sum` weighted by `decay`, plus `more`, saturating.
fn weighted(sum: u64, decay: u64, more: u128) -> (r: u64)
    requires
        more <= 0xffff_ffff_ffff_fffe_0000_0000_0000_0001,
    ensures
        r == decayed(sum, decay, more as int),
{
    let kept: u128 = product(sum, decay) / 0x1_0000_0000_0000_0000;
    cap(kept + more)
}

/// The rate to release at now: `rate`, trimmed towards whatever would return the
/// buffer to the cushion. See [`MediaClock::due`].
pub fn release_rate(rate: u64, buffered: usize, cushion: Nanos) -> (r: u64)
    ensures
        r == trimmed(rate, buffered, cushion),
{
    let span: Nanos = if cushion > LONGEST {
        LONGEST
    } else {
        cushion
    };
    let second: u128 = NANOS_PER_SEC as u128;
    proof {
        lemma_target_in_two(rate as int, span as int);
        lemma_product_bound(rate as int, span as int / second as int);
        lemma_product_bound(rate as int, span as int % second as int);
    }
    let part: u128 = (rate as u128) * (span % second) / second;
    let target: u128 = (rate as u128) * (span / second) + part;
    if target == 0 {
        return rate;
    }
    let held: u128 = (buffered as u128) * (NANOS_PER_SEC as u128);
    let error: u128 = if held >= target {
        let off: u128 = if held - target < target {
            held - target
        } else {
            target
        };
        proof {
            lemma_error_is_a_fraction(off as int, target as int);
        }
        off * second / target
    } else {
        proof {
            lemma_error_is_a_fraction(target - held, target as int);
            lemma_error_from_above(held as int, target as int);
        }
        let short: u128 = held * second;
        second - short / target - if short % target == 0 {
            0
        } else {
            1
        }
    };
    proof {
        law_trim_is_at_most_a_twentieth(rate, held as int, target as int);
        lemma_product_bound(rate as int, error as int);
    }
    let trim: u128 = (rate as u128) * error / ((SERVO_PARTS as u128) * (NANOS_PER_SEC as u128));
    if held >= target {
        cap((rate as u128) + trim)
    } else {
        rate - (trim as u64)
    }
}

/// A cushion is its whole seconds, and what is left.
proof fn lemma_target_in_two(rate: int, span: int)
    requires
        rate >= 0,
        0 <= span <= LONGEST,
    ensures
        ({
            let s = NANOS_PER_SEC as int;
            &&& rate * span / s == rate * (span / s) + rate * (span % s) / s
            &&& 0 <= span / s <= u64::MAX
            &&& 0 <= span % s < s
            &&& rate * (span % s) / s <= rate
        }),
{
    let s = NANOS_PER_SEC as int;
    let (q, r) = (span / s, span % s);
    vstd::arithmetic::div_mod::lemma_fundamental_div_mod(span, s);
    assert(rate * span == rate * r + (rate * q) * s) by (nonlinear_arith)
        requires
            span == s * q + r,
    ;
    vstd::arithmetic::div_mod::lemma_hoist_over_denominator(rate * r, rate * q, s as nat);
    assert(rate * r <= rate * s) by (nonlinear_arith)
        requires
            0 <= r < s,
            rate >= 0,
    ;
    vstd::arithmetic::div_mod::lemma_div_is_ordered(rate * r, rate * s, s);
    crate::arith::lemma_exact_division(rate, s);
}

/// How far a buffer falls short of the cushion, from what it holds.
proof fn lemma_error_from_above(held: int, target: int)
    requires
        0 <= held < target,
    ensures
        ({
            let s = NANOS_PER_SEC as int;
            let short = held * s;
            (target - held) * s / target == s - short / target - if short % target == 0 {
                0int
            } else {
                1int
            }
        }),
{
    let s = NANOS_PER_SEC as int;
    let short = held * s;
    let (q, r) = (short / target, short % target);
    vstd::arithmetic::div_mod::lemma_fundamental_div_mod(short, target);
    vstd::arithmetic::div_mod::lemma_mod_bound(short, target);
    let (up, left) = if r == 0 {
        (s - q, 0int)
    } else {
        (s - q - 1, target - r)
    };
    assert((target - held) * s == up * target + left) by (nonlinear_arith)
        requires
            held * s == target * q + r,
            up == s - q && r == 0 && left == 0 || up == s - q - 1 && left == target - r,
    ;
    vstd::arithmetic::div_mod::lemma_fundamental_div_mod_converse(
        (target - held) * s,
        target,
        up,
        left,
    );
}

/// An error no larger than the cushion is a fraction of it.
proof fn lemma_error_is_a_fraction(off: int, target: int)
    requires
        0 <= off <= target,
        target > 0,
    ensures
        0 <= off * NANOS_PER_SEC / target <= NANOS_PER_SEC,
{
    let s = NANOS_PER_SEC as int;
    assert(0 <= off * s <= target * s) by (nonlinear_arith)
        requires
            0 <= off <= target,
            s > 0,
    ;
    vstd::arithmetic::div_mod::lemma_div_is_ordered(0, off * s, target);
    vstd::arithmetic::div_mod::lemma_div_is_ordered(off * s, target * s, target);
    crate::arith::lemma_exact_division(s, target);
    assert(target * s == s * target) by (nonlinear_arith);
    assert(0int / target == 0) by (nonlinear_arith)
        requires
            target > 0,
    ;
}

/// The trim never moves the release rate by more than a twentieth, so release
/// tracks the media rate whatever the buffer holds.
pub proof fn law_trim_is_at_most_a_twentieth(rate: u64, held: int, target: int)
    requires
        held >= 0,
        target > 0,
    ensures
        0 <= trim_of(rate, held, target),
        SERVO_PARTS * trim_of(rate, held, target) <= rate,
        held == target ==> trim_of(rate, held, target) == 0,
{
    let away = if held >= target {
        held - target
    } else {
        target - held
    };
    let off = if away < target {
        away
    } else {
        target
    };
    lemma_error_is_a_fraction(off, target);
    let error = off * NANOS_PER_SEC / target;
    let s = NANOS_PER_SEC as int;
    assert(0 <= rate * error <= rate * s) by (nonlinear_arith)
        requires
            0 <= error <= s,
    ;
    assert(0 <= rate * error / (20 * s) && 20 * (rate * error / (20 * s)) <= rate)
        by (nonlinear_arith)
        requires
            0 <= rate * error <= rate * s,
            s == 1_000_000_000int,
    ;
    if held == target {
        assert(off * s == 0) by (nonlinear_arith)
            requires
                off == 0,
        ;
        assert(0int / target == 0) by (nonlinear_arith)
            requires
                target > 0,
        ;
        assert(rate * error == 0) by (nonlinear_arith)
            requires
                error == 0,
        ;
    }
}

/// What a cushion comes to at `rate`, in billionths of a packet.
pub open spec fn cushioned(rate: u64, cushion: Nanos) -> int {
    rate * at_longest(cushion as int) / NANOS_PER_SEC as int
}

/// Over its cushion a buffer is released no slower than the media rate, and under
/// it no faster.
pub proof fn law_release_leans_towards_the_cushion(rate: u64, buffered: usize, cushion: Nanos)
    ensures
        buffered * NANOS_PER_SEC >= cushioned(rate, cushion) ==> trimmed(rate, buffered, cushion)
            >= rate,
        buffered * NANOS_PER_SEC <= cushioned(rate, cushion) ==> trimmed(rate, buffered, cushion)
            <= rate,
{
    let span = at_longest(cushion as int) as int;
    let target = cushioned(rate, cushion);
    assert(rate * span >= 0) by (nonlinear_arith)
        requires
            span >= 0,
            rate >= 0,
    ;
    if target != 0 {
        law_trim_is_at_most_a_twentieth(rate, buffered * NANOS_PER_SEC, target);
    }
}

/// Credit only accrues: the number of packets owed never falls while time does not
/// run backwards.
pub proof fn law_owed_never_falls(
    clock: MediaClock,
    now: Nanos,
    later: Nanos,
    buffered: usize,
    cushion: Nanos,
)
    requires
        now <= later,
    ensures
        clock.owed(now) <= clock.ticked_to(later, buffered, cushion).owed(later),
{
    let next = clock.ticked_to(later, buffered, cushion);
    let last = match clock.ticked {
        Some(t) => t,
        None => match clock.anchor {
            Some(a) => a,
            None => later,
        },
    };
    if clock.running(later) && later > last {
        let rate = trimmed(clock.basis(), buffered, cushion) as int;
        assert((later - last) * rate >= 0) by (nonlinear_arith)
            requires
                later >= last,
                rate >= 0,
        ;
    }
    assert(clock.credit <= next.credit);
    vstd::arithmetic::div_mod::lemma_div_is_ordered(
        clock.credit as int,
        next.credit as int,
        CREDIT_PER_PACKET as int,
    );
}

/// The estimate is the whole of what has been gathered, packets over time, and not
/// an average of what each interval measured.
pub proof fn law_estimate_is_a_ratio_of_sums(clock: MediaClock, sample: RateSample, decay: u64)
    requires
        sample.nanos > 0,
    ensures
        ({
            let after = clock.folded(sample, decay);
            &&& after.estimated
            &&& after.decayed_packets >= capped(sample.packets * NANOS_PER_SEC)
            &&& after.decayed_nanos >= sample.nanos
            &&& after.estimate == capped(
                ceil_div(after.decayed_packets * NANOS_PER_SEC, after.decayed_nanos as int),
            )
        }),
{
    lemma_product_bound(clock.decayed_packets as int, decay as int);
    lemma_product_bound(clock.decayed_nanos as int, decay as int);
}

} // verus!
