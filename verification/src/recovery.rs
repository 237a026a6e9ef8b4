//! What the media clock makes of a run of source packets: which of its PCRs measure
//! a rate, and what rate that leaves.

use vstd::prelude::*;

use crate::arith::{lemma_exact_division, Nanos};
use crate::media_clock::{
    law_trim_is_at_most_a_twentieth, trim_of, trimmed, MediaClock, RateSample,
};
use crate::pcr::pcr_distance;

verus! {

/// The clock once it has seen packets carrying `pcrs`, one entry for each packet.
pub open spec fn seen(clock: MediaClock, pcrs: Seq<Option<u64>>) -> MediaClock
    decreases pcrs.len(),
{
    if pcrs.len() == 0 {
        clock
    } else {
        seen(clock, pcrs.drop_last()).observed(pcrs.last())
    }
}

/// The rate samples completed on the way, in order.
pub open spec fn samples(clock: MediaClock, pcrs: Seq<Option<u64>>) -> Seq<RateSample>
    decreases pcrs.len(),
{
    if pcrs.len() == 0 {
        Seq::empty()
    } else {
        let before = samples(clock, pcrs.drop_last());
        match seen(clock, pcrs.drop_last()).sample(pcrs.last()) {
            Some(sample) => before.push(sample),
            None => before,
        }
    }
}

/// The packets of a run of samples together.
pub open spec fn packets_in(samples: Seq<RateSample>) -> int
    decreases samples.len(),
{
    if samples.len() == 0 {
        0
    } else {
        packets_in(samples.drop_last()) + samples.last().packets
    }
}

/// The source time of a run of samples together, in nanoseconds.
pub open spec fn nanos_in(samples: Seq<RateSample>) -> int
    decreases samples.len(),
{
    if samples.len() == 0 {
        0
    } else {
        nanos_in(samples.drop_last()) + samples.last().nanos
    }
}

/// The last PCR of a run, `from` if it has none.
pub open spec fn latest(from: u64, pcrs: Seq<Option<u64>>) -> u64
    decreases pcrs.len(),
{
    if pcrs.len() == 0 {
        from
    } else {
        match pcrs.last() {
            Some(pcr) => pcr,
            None => latest(from, pcrs.drop_last()),
        }
    }
}

/// Every PCR of a run is ahead of the one before it, the first of them ahead of
/// `from`, by no more than five seconds of the wrapping 27 MHz clock.
pub open spec fn advances(from: u64, pcrs: Seq<Option<u64>>) -> bool
    decreases pcrs.len(),
{
    pcrs.len() > 0 ==> {
        &&& advances(from, pcrs.drop_last())
        &&& pcrs.last() matches Some(pcr) ==> pcr < 2_576_980_377_600 && 0 < (pcr - latest(
            from,
            pcrs.drop_last(),
        )) % 2_576_980_377_600 <= 135_000_000
    }
}

/// The source time that a run spans, each step from one PCR to the next in whole
/// nanoseconds: a tick of 27 MHz is a twenty-seventh of a microsecond.
pub open spec fn source_time(from: u64, pcrs: Seq<Option<u64>>) -> int
    decreases pcrs.len(),
{
    if pcrs.len() == 0 {
        0
    } else {
        source_time(from, pcrs.drop_last()) + match pcrs.last() {
            Some(pcr) => (pcr - latest(from, pcrs.drop_last())) % 2_576_980_377_600 * 1000 / 27,
            None => 0,
        }
    }
}

/// One step of the source's clock, of anything up to five seconds, is counted in
/// full: its packets and its time are added to what was held back, and once that
/// comes to a millisecond it is a rate sample and nothing is held back.
pub proof fn law_a_step_is_counted_in_full(clock: MediaClock, from: u64, to: u64)
    requires
        clock.last_pcr == Some(from),
        from < 2_576_980_377_600,
        to < 2_576_980_377_600,
        0 < (to - from) % 2_576_980_377_600 <= 135_000_000,
        clock.pending_packets + clock.packets_since_pcr < u64::MAX,
        clock.pending_nanos + 5_000_000_000 <= u64::MAX,
    ensures
        ({
            let after = clock.observed(Some(to));
            let packets = clock.pending_packets + clock.packets_since_pcr + 1;
            let nanos = clock.pending_nanos + (to - from) % 2_576_980_377_600 * 1000 / 27;
            &&& after.last_pcr == Some(to)
            &&& after.packets_since_pcr == 0
            &&& if nanos >= 1_000_000 {
                &&& clock.sample(Some(to)) matches Some(sample)
                &&& sample.packets == packets
                &&& sample.nanos == nanos
                &&& after.pending_packets == 0
                &&& after.pending_nanos == 0
            } else {
                &&& clock.sample(Some(to)) is None
                &&& after.pending_packets == packets
                &&& after.pending_nanos == nanos
            }
        }),
{
    crate::pcr::lemma_distance_is_a_difference(from, to);
    let step = pcr_distance(from, to) as int;
    assert(0 < step * 1000 / 27 <= 5_000_000_000);
}

/// A packet without a PCR is counted towards the next step and changes nothing else
/// of the measurement.
proof fn lemma_a_plain_packet_is_counted(clock: MediaClock)
    requires
        clock.packets_since_pcr < u64::MAX,
    ensures
        ({
            let after = clock.observed(None);
            &&& after.last_pcr == clock.last_pcr
            &&& after.packets_since_pcr == clock.packets_since_pcr + 1
            &&& after.pending_packets == clock.pending_packets
            &&& after.pending_nanos == clock.pending_nanos
            &&& clock.sample(None) is None
        }),
{
}

/// Nothing of a source that keeps its clock going is lost to the measurement: over a
/// run whose PCRs each step ahead, by anything up to five seconds, the samples
/// completed and what is still held back add up to every packet of the run and to
/// all of its source time.
pub proof fn law_samples_add_up_to_the_run(clock: MediaClock, from: u64, pcrs: Seq<Option<u64>>)
    requires
        clock.last_pcr == Some(from),
        from < 2_576_980_377_600,
        advances(from, pcrs),
        clock.pending_packets + clock.packets_since_pcr + pcrs.len() <= u64::MAX,
        clock.pending_nanos + source_time(from, pcrs) + 5_000_000_000 <= u64::MAX,
    ensures
        ({
            let after = seen(clock, pcrs);
            let taken = samples(clock, pcrs);
            &&& after.last_pcr == Some(latest(from, pcrs))
            &&& latest(from, pcrs) < 2_576_980_377_600
            &&& packets_in(taken) + after.pending_packets + after.packets_since_pcr
                == clock.pending_packets + clock.packets_since_pcr + pcrs.len()
            &&& nanos_in(taken) + after.pending_nanos == clock.pending_nanos + source_time(
                from,
                pcrs,
            )
            &&& after.pending_nanos < 1_000_000 || taken.len() == 0
            &&& forall|i: int| 0 <= i < taken.len() ==> (#[trigger] taken[i]).nanos >= 1_000_000
            &&& 0 <= packets_in(taken)
            &&& 0 <= nanos_in(taken)
        }),
    decreases pcrs.len(),
{
    if pcrs.len() > 0 {
        let shorter = pcrs.drop_last();
        let before = seen(clock, shorter);
        let taken = samples(clock, shorter);
        assert(source_time(from, shorter) <= source_time(from, pcrs));
        law_samples_add_up_to_the_run(clock, from, shorter);
        match pcrs.last() {
            None => {
                lemma_a_plain_packet_is_counted(before);
            },
            Some(pcr) => {
                law_a_step_is_counted_in_full(before, latest(from, shorter), pcr);
                if let Some(sample) = before.sample(Some(pcr)) {
                    assert(taken.push(sample).drop_last() =~= taken);
                }
            },
        }
    }
}

/// What a source sends whose PCRs come `step` ticks and `every` packets apart, the
/// first of them after `every` packets.
pub open spec fn evenly(from: u64, every: int, step: int, pcrs: Seq<Option<u64>>) -> bool {
    forall|i: int|
        0 <= i < pcrs.len() ==> #[trigger] pcrs[i] == (if (i + 1) % every == 0 {
            Some(((from + (i + 1) / every * step) % 2_576_980_377_600) as u64)
        } else {
            None
        })
}

/// A source whose PCRs are a constant step apart, of anything from a millisecond to
/// five seconds, measures a rate at each one of them: the packets of one interval
/// over the time of one interval, whole and by itself.
pub proof fn law_an_even_source_is_sampled_at_every_pcr(
    clock: MediaClock,
    from: u64,
    every: int,
    step: int,
    pcrs: Seq<Option<u64>>,
)
    requires
        clock.last_pcr == Some(from),
        clock.packets_since_pcr == 0,
        clock.pending_packets == 0,
        clock.pending_nanos == 0,
        from < 2_576_980_377_600,
        1 <= every <= u64::MAX,
        27_000 <= step <= 135_000_000,
        evenly(from, every, step, pcrs),
    ensures
        ({
            let taken = samples(clock, pcrs);
            let after = seen(clock, pcrs);
            &&& taken.len() == pcrs.len() as int / every
            &&& forall|i: int|
                0 <= i < taken.len() ==> (#[trigger] taken[i]).packets == every && taken[i].nanos
                    == step * 1000 / 27
            &&& after.last_pcr == Some(
                ((from + pcrs.len() as int / every * step) % 2_576_980_377_600) as u64,
            )
            &&& after.packets_since_pcr == pcrs.len() as int % every
            &&& after.pending_packets == 0
            &&& after.pending_nanos == 0
        }),
    decreases pcrs.len(),
{
    let w: int = 2_576_980_377_600;
    let n = pcrs.len() as int;
    if n == 0 {
        vstd::arithmetic::div_mod::lemma_div_of0(every);
        vstd::arithmetic::div_mod::lemma_small_mod(0, every as nat);
        assert(0 * step == 0);
        vstd::arithmetic::div_mod::lemma_small_mod(from as nat, w as nat);
    } else {
        let shorter = pcrs.drop_last();
        let before = seen(clock, shorter);
        assert(evenly(from, every, step, shorter)) by {
            assert forall|i: int| 0 <= i < shorter.len() implies #[trigger] shorter[i]
                == pcrs[i] by {}
        }
        law_an_even_source_is_sampled_at_every_pcr(clock, from, every, step, shorter);
        lemma_counting_round(n - 1, every);
        let rounds = (n - 1) / every;
        let here = (from + rounds * step) % w;
        vstd::arithmetic::div_mod::lemma_mod_bound(from + rounds * step, w);
        assert(pcrs[n - 1] == pcrs.last());
        if n % every == 0 {
            let there = (from + (rounds + 1) * step) % w;
            vstd::arithmetic::div_mod::lemma_mod_bound(from + (rounds + 1) * step, w);
            assert((rounds + 1) * step == rounds * step + step) by (nonlinear_arith);
            vstd::arithmetic::div_mod::lemma_sub_mod_noop(
                from + (rounds + 1) * step,
                from + rounds * step,
                w,
            );
            vstd::arithmetic::div_mod::lemma_small_mod(step as nat, w as nat);
            assert((there - here) % w == step);
            law_a_step_is_counted_in_full(before, here as u64, there as u64);
            assert(step * 1000 / 27 >= 1_000_000);
        } else {
            lemma_a_plain_packet_is_counted(before);
        }
    }
}

/// Counting one more, round and round.
proof fn lemma_counting_round(n: int, every: int)
    requires
        n >= 0,
        every >= 1,
    ensures
        0 <= n % every < every,
        n / every >= 0,
        (n + 1) % every == 0 ==> n % every == every - 1 && (n + 1) / every == n / every + 1,
        (n + 1) % every != 0 ==> (n + 1) % every == n % every + 1 && (n + 1) / every == n / every,
{
    let q = n / every;
    let r = n % every;
    vstd::arithmetic::div_mod::lemma_fundamental_div_mod(n, every);
    vstd::arithmetic::div_mod::lemma_mod_bound(n, every);
    vstd::arithmetic::div_mod::lemma_div_pos_is_pos(n, every);
    assert(every * q == q * every) by (nonlinear_arith);
    if r == every - 1 {
        assert(n + 1 == (q + 1) * every + 0) by (nonlinear_arith)
            requires
                n == q * every + r,
                r == every - 1,
        ;
        vstd::arithmetic::div_mod::lemma_fundamental_div_mod_converse(n + 1, every, q + 1, 0);
    } else {
        vstd::arithmetic::div_mod::lemma_fundamental_div_mod_converse(n + 1, every, q, r + 1);
    }
}

/// The smallest whole number that `n / d` does not exceed is the one whose
/// predecessor it does.
proof fn lemma_rounding_up(n: int, d: int)
    requires
        n >= 0,
        d >= 1,
    ensures
        ({
            let up = crate::arith::ceil_div(n, d);
            &&& up >= 0
            &&& n <= up * d
            &&& (up - 1) * d < n
        }),
{
    let up = crate::arith::ceil_div(n, d);
    vstd::arithmetic::div_mod::lemma_fundamental_div_mod(n + d - 1, d);
    vstd::arithmetic::div_mod::lemma_mod_bound(n + d - 1, d);
    vstd::arithmetic::div_mod::lemma_div_pos_is_pos(n + d - 1, d);
    assert(up * d == d * up && (up - 1) * d == d * up - d) by (nonlinear_arith);
}

/// Folding a sample in keeps the given share of what was gathered before, in packets
/// and in time alike, and adds the sample whole. The rate is then the one over the
/// other, rounded up: packets are summed in billionths, time in nanoseconds, and a
/// rate is billionths of a packet each second.
pub proof fn law_a_fold_adds_the_sample_whole(clock: MediaClock, sample: RateSample, decay: u64)
    requires
        sample.nanos > 0,
        clock.decayed_packets + sample.packets * 1_000_000_000 <= u64::MAX,
        clock.decayed_nanos + sample.nanos <= u64::MAX,
    ensures
        ({
            let after = clock.folded(sample, decay);
            let kept_packets = after.decayed_packets - sample.packets * 1_000_000_000;
            let kept_nanos = after.decayed_nanos - sample.nanos;
            &&& kept_packets * 0x1_0000_0000_0000_0000 <= clock.decayed_packets * decay
            &&& clock.decayed_packets * decay < (kept_packets + 1) * 0x1_0000_0000_0000_0000
            &&& kept_nanos * 0x1_0000_0000_0000_0000 <= clock.decayed_nanos * decay
            &&& clock.decayed_nanos * decay < (kept_nanos + 1) * 0x1_0000_0000_0000_0000
            &&& 0 <= kept_packets <= clock.decayed_packets
            &&& 0 <= kept_nanos <= clock.decayed_nanos
            &&& after.estimated
            &&& (after.estimate - 1) * after.decayed_nanos < after.decayed_packets * 1_000_000_000
            &&& after.decayed_packets * 1_000_000_000 <= after.estimate * after.decayed_nanos
                || after.estimate == u64::MAX
        }),
{
    let after = clock.folded(sample, decay);
    lemma_a_share(clock.decayed_packets, decay);
    lemma_a_share(clock.decayed_nanos, decay);
    let total = after.decayed_packets * 1_000_000_000;
    let up = crate::arith::ceil_div(total, after.decayed_nanos as int);
    lemma_rounding_up(total, after.decayed_nanos as int);
    if up > u64::MAX {
        assert((u64::MAX - 1) * after.decayed_nanos < total) by (nonlinear_arith)
            requires
                up > u64::MAX,
                (up - 1) * after.decayed_nanos < total,
        ;
    }
}

/// A share of a sum is no more than the sum.
proof fn lemma_a_share(sum: u64, decay: u64)
    ensures
        ({
            let share = sum * decay / 0x1_0000_0000_0000_0000;
            &&& 0 <= share <= sum
            &&& share * 0x1_0000_0000_0000_0000 <= sum * decay
            &&& sum * decay < (share + 1) * 0x1_0000_0000_0000_0000
        }),
{
    assert(0 <= sum * decay <= sum * 0x1_0000_0000_0000_0000) by (nonlinear_arith)
        requires
            decay <= 0x1_0000_0000_0000_0000,
    ;
}

/// The clock with one sample folded in over and over, each time with its own decay.
pub open spec fn fed(clock: MediaClock, sample: RateSample, decays: Seq<u64>) -> MediaClock
    decreases decays.len(),
{
    if decays.len() == 0 {
        clock
    } else {
        fed(clock, sample, decays.drop_last()).folded(sample, decays.last())
    }
}

/// A source that measures the same at every PCR is recovered at what it measures:
/// however each fold decays what came before, the sums stay in the proportion of the
/// sample, but for the part of a unit that each fold rounds off, and after the first
/// fold the rate is that proportion outright, rounded up.
pub proof fn law_an_even_source_reads_as_its_own_rate(
    clock: MediaClock,
    sample: RateSample,
    decays: Seq<u64>,
)
    requires
        clock.decayed_packets == 0,
        clock.decayed_nanos == 0,
        sample.nanos > 0,
        decays.len() > 0,
        decays.len() * sample.packets * 1_000_000_000 <= u64::MAX,
        decays.len() * sample.nanos <= u64::MAX,
    ensures
        ({
            let after = fed(clock, sample, decays);
            let packets = sample.packets * 1_000_000_000;
            let most = if packets >= sample.nanos {
                packets
            } else {
                sample.nanos as int
            };
            let off = after.decayed_packets * sample.nanos - packets * after.decayed_nanos;
            &&& -((decays.len() - 1) * most) <= off <= (decays.len() - 1) * most
            &&& sample.nanos <= after.decayed_nanos <= decays.len() * sample.nanos
            &&& packets <= after.decayed_packets <= decays.len() * packets
            &&& after.estimated
            &&& (after.estimate - 1) * after.decayed_nanos < after.decayed_packets * 1_000_000_000
            &&& after.decayed_packets * 1_000_000_000 <= after.estimate * after.decayed_nanos
                || after.estimate == u64::MAX
            &&& decays.len() == 1 ==> after.decayed_packets == packets && after.decayed_nanos
                == sample.nanos
        }),
    decreases decays.len(),
{
    let shorter = decays.drop_last();
    let k = decays.len() as int;
    let before = fed(clock, sample, shorter);
    let after = fed(clock, sample, decays);
    let packets = sample.packets * 1_000_000_000;
    let nanos = sample.nanos as int;
    let most = if packets >= nanos {
        packets
    } else {
        nanos
    };
    assert(k * sample.packets * 1_000_000_000 == k * packets) by (nonlinear_arith)
        requires
            packets == sample.packets * 1_000_000_000,
    ;
    assert(k * packets == (k - 1) * packets + packets && k * nanos == (k - 1) * nanos + nanos)
        by (nonlinear_arith);
    if k > 1 {
        assert((k - 1) * sample.packets * 1_000_000_000 == (k - 1) * packets) by (nonlinear_arith)
            requires
                packets == sample.packets * 1_000_000_000,
        ;
        law_an_even_source_reads_as_its_own_rate(clock, sample, shorter);
        law_a_fold_adds_the_sample_whole(before, sample, decays.last());
        lemma_proportion_is_kept(
            before.decayed_packets as int,
            before.decayed_nanos as int,
            packets,
            nanos,
            decays.last() as int,
            after.decayed_packets - packets,
            after.decayed_nanos - nanos,
            (k - 2) * most,
            most,
        );
        assert((k - 2) * most + most == (k - 1) * most) by (nonlinear_arith);
    } else {
        assert(shorter =~= Seq::empty());
        law_a_fold_adds_the_sample_whole(clock, sample, decays.last());
        assert((k - 1) * most == 0 && (k - 1) * packets == 0 && (k - 1) * nanos == 0)
            by (nonlinear_arith)
            requires
                k == 1,
        ;
        assert(packets * nanos - packets * nanos == 0);
    }
}

/// Two sums in proportion stay so, but for what rounding takes off, when the same
/// share of both is kept.
proof fn lemma_proportion_is_kept(
    p: int,
    t: int,
    packets: int,
    nanos: int,
    decay: int,
    kept_p: int,
    kept_t: int,
    off: int,
    most: int,
)
    requires
        0 <= packets <= most,
        0 <= nanos <= most,
        0 <= decay < 0x1_0000_0000_0000_0000,
        off >= 0,
        -off <= p * nanos - packets * t <= off,
        kept_p * 0x1_0000_0000_0000_0000 <= p * decay < (kept_p + 1) * 0x1_0000_0000_0000_0000,
        kept_t * 0x1_0000_0000_0000_0000 <= t * decay < (kept_t + 1) * 0x1_0000_0000_0000_0000,
    ensures
        -(off + most) <= (kept_p + packets) * nanos - packets * (kept_t + nanos) <= off + most,
{
    let w: int = 0x1_0000_0000_0000_0000;
    let was = p * nanos - packets * t;
    let now = kept_p * nanos - packets * kept_t;
    assert((kept_p + packets) * nanos - packets * (kept_t + nanos) == now) by (nonlinear_arith)
        requires
            now == kept_p * nanos - packets * kept_t,
    ;
    let lost_p = p * decay - kept_p * w;
    let lost_t = t * decay - kept_t * w;
    let (share_p, share_t) = (p * decay, t * decay);
    assert(now * w == (kept_p * w) * nanos - packets * (kept_t * w)) by (nonlinear_arith)
        requires
            now == kept_p * nanos - packets * kept_t,
    ;
    assert((share_p - lost_p) * nanos == share_p * nanos - lost_p * nanos) by (nonlinear_arith);
    assert(packets * (share_t - lost_t) == packets * share_t - packets * lost_t)
        by (nonlinear_arith);
    assert(was * decay == (p * decay) * nanos - packets * (t * decay)) by (nonlinear_arith)
        requires
            was == p * nanos - packets * t,
    ;
    assert(now * w == was * decay - lost_p * nanos + packets * lost_t);
    assert(-(off * w) <= was * decay <= off * w) by (nonlinear_arith)
        requires
            -off <= was <= off,
            0 <= decay < w,
    ;
    assert(0 <= lost_p * nanos <= w * most) by (nonlinear_arith)
        requires
            0 <= lost_p < w,
            0 <= nanos <= most,
    ;
    assert(0 <= packets * lost_t <= w * most) by (nonlinear_arith)
        requires
            0 <= lost_t < w,
            0 <= packets <= most,
    ;
    assert(-(off + most) <= now <= off + most) by (nonlinear_arith)
        requires
            -(off * w) - w * most <= now * w <= off * w + w * most,
            w == 0x1_0000_0000_0000_0000,
    ;
}

/// A source clock that stands still, or leaps by more than five seconds, measures
/// nothing: no sample comes of it, and what was held back stays as it was. Packets
/// against a standing clock are counted as waiting on it, and a leap lets them go.
pub proof fn law_a_standing_or_leaping_clock_measures_nothing(
    clock: MediaClock,
    from: u64,
    to: u64,
)
    requires
        clock.last_pcr == Some(from),
        from < 2_576_980_377_600,
        to < 2_576_980_377_600,
        to == from || (to - from) % 2_576_980_377_600 > 135_000_000,
        clock.frozen_packets + clock.packets_since_pcr < u64::MAX,
    ensures
        ({
            let after = clock.observed(Some(to));
            &&& clock.sample(Some(to)) is None
            &&& after.last_pcr == Some(to)
            &&& after.packets_since_pcr == 0
            &&& after.pending_packets == clock.pending_packets
            &&& after.pending_nanos == clock.pending_nanos
            &&& after.frozen_packets == (if to == from {
                clock.frozen_packets + clock.packets_since_pcr + 1
            } else {
                0
            })
        }),
{
    crate::pcr::lemma_distance_is_a_difference(from, to);
    if to != from {
        let step = pcr_distance(from, to) as int;
        assert(step * 1000 / 27 > 5_000_000_000);
    }
}

/// The first PCR measures nothing, and neither does a packet without one.
pub proof fn law_a_rate_takes_two_pcrs(clock: MediaClock, pcr: Option<u64>)
    requires
        clock.last_pcr is None || pcr is None,
    ensures
        clock.sample(pcr) is None,
        clock.observed(pcr).pending_packets == clock.pending_packets,
        clock.observed(pcr).pending_nanos == clock.pending_nanos,
        clock.observed(pcr).frozen_packets == clock.frozen_packets,
        pcr is Some ==> clock.observed(pcr).last_pcr == pcr,
        pcr is None ==> clock.observed(pcr).last_pcr == clock.last_pcr,
{
}

/// The source's rate is gone by for as long as no more packets wait on its clock
/// than the configured rate carries in two seconds, and the configured rate
/// otherwise.
pub proof fn law_a_source_clock_is_believed_for_two_seconds(clock: MediaClock)
    ensures
        ({
            let waiting = (clock.pending_packets + clock.frozen_packets) * 1_000_000_000;
            &&& clock.estimated && waiting <= 2 * clock.fallback ==> clock.basis()
                == clock.estimate
            &&& !clock.estimated || waiting > 2 * clock.fallback ==> clock.basis()
                == clock.fallback
        }),
{
    let waiting = clock.pending_packets + clock.frozen_packets;
    assert(waiting * 1_000_000_000 * 1_000_000_000 > clock.fallback * 2_000_000_000 <==> waiting
        * 1_000_000_000 > 2 * clock.fallback);
}

/// The release rate is the media rate trimmed in proportion to how far the buffer is
/// from the cushion: up where it holds more, down where it holds less, a twentieth
/// at a full cushion's distance and never more than that. With no cushion to hold
/// it is not trimmed.
///
/// A rate is billionths of a packet each second, so `rate * cushion / 1_000_000_000`
/// is the cushion in billionths of a packet.
pub proof fn law_the_trim_is_in_proportion(rate: u64, buffered: usize, cushion: Nanos)
    requires
        cushion <= 18_446_744_073_709_551_615_999_999_999,
        rate + rate / 20 <= u64::MAX,
    ensures
        ({
            let target = rate * cushion / 1_000_000_000;
            let held = buffered * 1_000_000_000;
            let released = trimmed(rate, buffered, cushion);
            let trim = if held >= target {
                released - rate
            } else {
                rate - released
            };
            let away = if held >= 2 * target {
                target
            } else if held >= target {
                held - target
            } else {
                target - held
            };
            &&& target == 0 ==> released == rate
            &&& 0 <= 20 * trim <= rate
            &&& target > 0 ==> {
                &&& 20 * trim * target <= rate * away
                &&& rate * (away * 1_000_000_000 - target) < (trim + 1) * 20_000_000_000 * target
                &&& away == target ==> trim == rate / 20
            }
        }),
{
    let target = rate * cushion / 1_000_000_000;
    let held = buffered * 1_000_000_000;
    assert(rate * cushion >= 0) by (nonlinear_arith);
    if target > 0 {
        let away = if held >= 2 * target {
            target
        } else if held >= target {
            held - target
        } else {
            target - held
        };
        law_trim_is_at_most_a_twentieth(rate, held, target);
        let trim = trim_of(rate, held, target);
        let error = away * 1_000_000_000 / target;
        assert(trim == rate * error / 20_000_000_000);
        vstd::arithmetic::div_mod::lemma_fundamental_div_mod(away * 1_000_000_000, target);
        vstd::arithmetic::div_mod::lemma_mod_bound(away * 1_000_000_000, target);
        vstd::arithmetic::div_mod::lemma_div_pos_is_pos(away * 1_000_000_000, target);
        lemma_trim_from_error(rate as int, away, target, error, trim);
        if away == target {
            lemma_exact_division(1_000_000_000, target);
            assert(away * 1_000_000_000 == 1_000_000_000 * target);
            assert(rate * 1_000_000_000 / 20_000_000_000 == rate / 20);
        }
    }
}

/// From the distance in billionths to the trim, rounded down twice.
proof fn lemma_trim_from_error(rate: int, away: int, target: int, error: int, trim: int)
    requires
        rate >= 0,
        target > 0,
        error >= 0,
        target * error <= away * 1_000_000_000 < target * error + target,
        trim == rate * error / 20_000_000_000,
    ensures
        20 * trim * target <= rate * away,
        rate * (away * 1_000_000_000 - target) < (trim + 1) * 20_000_000_000 * target,
{
    let product = rate * error;
    assert(product >= 0) by (nonlinear_arith)
        requires
            rate >= 0,
            error >= 0,
            product == rate * error,
    ;
    assert(20_000_000_000 * trim <= product < 20_000_000_000 * trim + 20_000_000_000);
    assert(product * target <= rate * (away * 1_000_000_000)) by (nonlinear_arith)
        requires
            product == rate * error,
            target * error <= away * 1_000_000_000,
            rate >= 0,
    ;
    assert((20_000_000_000 * trim) * target <= product * target) by (nonlinear_arith)
        requires
            20_000_000_000 * trim <= product,
            target > 0,
    ;
    assert((20_000_000_000 * trim) * target == (20 * trim * target) * 1_000_000_000)
        by (nonlinear_arith);
    assert(rate * (away * 1_000_000_000) == (rate * away) * 1_000_000_000) by (nonlinear_arith);
    assert(rate * (away * 1_000_000_000 - target) <= product * target) by (nonlinear_arith)
        requires
            product == rate * error,
            away * 1_000_000_000 - target <= target * error,
            rate >= 0,
    ;
    assert(product * target < ((trim + 1) * 20_000_000_000) * target) by (nonlinear_arith)
        requires
            product < (trim + 1) * 20_000_000_000,
            target > 0,
    ;
}

/// Content is released at the release rate: of two readings of a running clock, the
/// later owes as many more packets as the time between them carries at the trimmed
/// rate, give or take the one in progress.
pub proof fn law_packets_are_owed_at_the_release_rate(
    clock: MediaClock,
    anchor: Nanos,
    now: Nanos,
    later: Nanos,
    buffered: usize,
    cushion: Nanos,
)
    requires
        clock.anchor == Some(anchor),
        clock.ticked == Some(now),
        anchor <= now <= later,
        clock.credit + (later - now) * trimmed(clock.basis(), buffered, cushion)
            < 1_000_000_000_000_000_000 * u64::MAX,
    ensures
        ({
            let after = clock.ticked_to(later, buffered, cushion);
            let more = after.owed(later) - clock.owed(now);
            let earned = (later - now) * trimmed(clock.basis(), buffered, cushion);
            &&& (more - 1) * 1_000_000_000_000_000_000 < earned
            &&& earned < (more + 1) * 1_000_000_000_000_000_000
        }),
{
    let after = clock.ticked_to(later, buffered, cushion);
    let rate = trimmed(clock.basis(), buffered, cushion);
    let earned = (later - now) * rate;
    assert(earned >= 0) by (nonlinear_arith)
        requires
            earned == (later - now) * rate,
            now <= later,
            rate >= 0,
    ;
    if later == now {
        assert(earned == 0) by (nonlinear_arith)
            requires
                earned == (later - now) * rate,
                later == now,
        ;
    }
    assert(after.credit == clock.credit + earned);
}

/// The clock owes nothing before it is anchored or before its anchor, and from the
/// anchor on the first packet and whatever its credit covers: the anchor is when the
/// first packet is due, and credit counts quintillionths of a packet.
pub proof fn law_the_first_packet_is_owed_at_the_anchor(clock: MediaClock, now: Nanos)
    requires
        clock.credit < 1_000_000_000_000_000_000 * u64::MAX,
    ensures
        clock.anchor is None || now < clock.anchor->Some_0 ==> clock.owed(now) == 0,
        clock.anchor is Some && now >= clock.anchor->Some_0 ==> {
            &&& clock.owed(now) >= 1
            &&& (clock.owed(now) - 1) * 1_000_000_000_000_000_000 <= clock.credit
            &&& clock.credit < clock.owed(now) * 1_000_000_000_000_000_000
        },
{
}

/// Every step that is counted is counted once, with the most packets that any of them
/// carried and how many fell short of a millisecond; and every PCR is, whatever its step.
pub proof fn law_intervals_are_counted(clock: MediaClock, from: u64, to: u64)
    requires
        clock.last_pcr == Some(from),
        from < 2_576_980_377_600,
        to < 2_576_980_377_600,
        clock.intervals < u64::MAX,
        clock.sub_ms_intervals < u64::MAX,
        clock.pcrs_seen < u64::MAX,
        clock.packets_since_pcr < u64::MAX,
    ensures
        ({
            let after = clock.observed(Some(to));
            let step = (to - from) % 2_576_980_377_600;
            let count = clock.packets_since_pcr + 1;
            let counted = 0 < step <= 135_000_000;
            &&& after.pcrs_seen == clock.pcrs_seen + 1
            &&& after.intervals == clock.intervals + (if counted {
                1int
            } else {
                0int
            })
            &&& after.sub_ms_intervals == clock.sub_ms_intervals + (if counted && step < 27_000 {
                1int
            } else {
                0int
            })
            &&& after.max_packets_in_interval == (if counted && count
                > clock.max_packets_in_interval {
                count
            } else {
                clock.max_packets_in_interval as int
            })
        }),
{
    crate::pcr::lemma_distance_is_a_difference(from, to);
    let step = pcr_distance(from, to) as int;
    assert(step <= 135_000_000 <==> step * 1000 / 27 <= 5_000_000_000);
    assert(step < 27_000 <==> step * 1000 / 27 < 1_000_000);
}

/// Credit runs from the anchor: a clock read for the first time owes the first packet
/// and what the time since its anchor has carried.
pub proof fn law_credit_runs_from_the_anchor(
    clock: MediaClock,
    anchor: Nanos,
    now: Nanos,
    buffered: usize,
    cushion: Nanos,
)
    requires
        clock.anchor == Some(anchor),
        clock.ticked is None,
        clock.credit == 0,
        anchor <= now,
        (now - anchor) * trimmed(clock.basis(), buffered, cushion) < 1_000_000_000_000_000_000
            * u64::MAX,
    ensures
        ({
            let after = clock.ticked_to(now, buffered, cushion);
            let earned = (now - anchor) * trimmed(clock.basis(), buffered, cushion);
            &&& (after.owed(now) - 1) * 1_000_000_000_000_000_000 <= earned
            &&& earned < after.owed(now) * 1_000_000_000_000_000_000
            &&& now > anchor ==> after.ticked == Some(now)
            &&& after.released == clock.released
            &&& after.estimate == clock.estimate
        }),
{
    let rate = trimmed(clock.basis(), buffered, cushion);
    let earned = (now - anchor) * rate;
    assert(earned >= 0) by (nonlinear_arith)
        requires
            earned == (now - anchor) * rate,
            anchor <= now,
            rate >= 0,
    ;
    if now == anchor {
        assert(earned == 0) by (nonlinear_arith)
            requires
                earned == (now - anchor) * rate,
                now == anchor,
        ;
    }
    assert(clock.ticked_to(now, buffered, cushion).credit == earned);
}

/// A clock restarted starts measuring and releasing anew at its anchor, and goes by the
/// rate it had.
pub proof fn law_a_restart_keeps_only_the_rate(clock: MediaClock, anchor: Nanos)
    ensures
        ({
            let after = clock.restarted(anchor);
            &&& after.anchor == Some(anchor)
            &&& after.ticked is None
            &&& after.credit == 0
            &&& after.released == 0
            &&& after.last_pcr is None
            &&& after.packets_since_pcr == 0
            &&& after.pending_packets == 0
            &&& after.pending_nanos == 0
            &&& after.frozen_packets == 0
            &&& after.decayed_packets == 0
            &&& after.decayed_nanos == 0
            &&& after.estimated == clock.estimated
            &&& after.estimate == clock.estimate
            &&& after.fallback == clock.fallback
        }),
{
}

/// An even source is recovered at its own rate: after the first sample the rate is the
/// packets of the sample over its time, rounded up, and after any more of the same it is
/// that but for what the folds round off, however they decay what came before.
pub proof fn law_an_even_source_is_recovered_at_its_rate(
    clock: MediaClock,
    sample: RateSample,
    decays: Seq<u64>,
)
    requires
        clock.decayed_packets == 0,
        clock.decayed_nanos == 0,
        clock.pending_packets == 0,
        clock.frozen_packets == 0,
        sample.nanos > 0,
        decays.len() > 0,
        decays.len() * sample.packets * 1_000_000_000 <= u64::MAX,
        decays.len() * sample.nanos <= u64::MAX,
        fed(clock, sample, decays).estimate < u64::MAX,
    ensures
        ({
            let after = fed(clock, sample, decays);
            let most = if sample.packets * 1_000_000_000 >= sample.nanos {
                sample.packets * 1_000_000_000
            } else {
                sample.nanos as int
            };
            let slack = (decays.len() - 1) * most * 1_000_000_000;
            &&& after.recovered() matches Some(rate)
            &&& ({
                let off = rate * sample.nanos - sample.packets * 1_000_000_000_000_000_000;
                &&& -slack <= after.decayed_nanos * off
                &&& after.decayed_nanos * off < slack + after.decayed_nanos * sample.nanos
                &&& decays.len() == 1 ==> 0 <= off < sample.nanos
            })
        }),
{
    let after = fed(clock, sample, decays);
    law_an_even_source_reads_as_its_own_rate(clock, sample, decays);
    lemma_feeding_keeps_the_rest(clock, sample, decays);
    let packets = sample.packets * 1_000_000_000;
    let most = if packets >= sample.nanos {
        packets
    } else {
        sample.nanos as int
    };
    lemma_rate_of_sums(
        after.estimate as int,
        after.decayed_packets as int,
        after.decayed_nanos as int,
        packets,
        sample.nanos as int,
        (decays.len() - 1) * most,
    );
    if decays.len() == 1 {
        let off = after.estimate * sample.nanos - packets * 1_000_000_000;
        assert((decays.len() - 1) * most == 0) by (nonlinear_arith)
            requires
                decays.len() == 1,
        ;
        assert(0 <= off < sample.nanos) by (nonlinear_arith)
            requires
                0 <= after.decayed_nanos * off,
                after.decayed_nanos * off < after.decayed_nanos * sample.nanos,
                after.decayed_nanos > 0,
        ;
    }
}

/// Folding touches the sums and the rate alone.
proof fn lemma_feeding_keeps_the_rest(clock: MediaClock, sample: RateSample, decays: Seq<u64>)
    ensures
        fed(clock, sample, decays).pending_packets == clock.pending_packets,
        fed(clock, sample, decays).frozen_packets == clock.frozen_packets,
        fed(clock, sample, decays).fallback == clock.fallback,
    decreases decays.len(),
{
    if decays.len() > 0 {
        lemma_feeding_keeps_the_rest(clock, sample, decays.drop_last());
    }
}

/// From sums nearly in proportion to a rate nearly that proportion.
proof fn lemma_rate_of_sums(rate: int, p: int, t: int, packets: int, nanos: int, slack: int)
    requires
        t >= 1,
        nanos >= 1,
        -slack <= p * nanos - packets * t <= slack,
        (rate - 1) * t < p * 1_000_000_000,
        p * 1_000_000_000 <= rate * t,
    ensures
        -(slack * 1_000_000_000) <= t * (rate * nanos - packets * 1_000_000_000),
        t * (rate * nanos - packets * 1_000_000_000) < slack * 1_000_000_000 + t * nanos,
{
    let off = p * nanos - packets * t;
    let scaled = t * (rate * nanos - packets * 1_000_000_000);
    assert(scaled == (rate * t) * nanos - (packets * t) * 1_000_000_000) by (nonlinear_arith)
        requires
            scaled == t * (rate * nanos - packets * 1_000_000_000),
    ;
    assert((p * 1_000_000_000) * nanos == (p * nanos) * 1_000_000_000) by (nonlinear_arith);
    assert((p * 1_000_000_000) * nanos <= (rate * t) * nanos) by (nonlinear_arith)
        requires
            p * 1_000_000_000 <= rate * t,
            nanos >= 1,
    ;
    assert(((rate - 1) * t) * nanos < (p * 1_000_000_000) * nanos) by (nonlinear_arith)
        requires
            (rate - 1) * t < p * 1_000_000_000,
            nanos >= 1,
    ;
    assert(((rate - 1) * t) * nanos == (rate * t) * nanos - t * nanos) by (nonlinear_arith);
}

} // verus!
