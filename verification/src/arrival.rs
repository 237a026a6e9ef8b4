//! Measuring the shape of the input's arrival pattern, so the buffer can be
//! sized from what the transport actually does rather than from an assumption.
//!
//! Every Internet-native transport delivers media in bursts, but the burst
//! granularity differs by two orders of magnitude between data planes: a MoQ
//! egress arrives in ~12 kB bursts whose worst silence is around 150 ms, while a
//! segmented-HTTP egress carrying the same programme arrives in megabyte bursts
//! with silences of several seconds. A groomer configured for the first and fed
//! the second drops programme on every segment and mutes the carrier through
//! every inter-segment gap; one configured for the second holds seconds of
//! needless latency on a feed that never needed it.
//!
//! # What is actually measured
//!
//! The useful quantity is not the burst size but the **lead**: how much media
//! the input has delivered ahead of real time. That is precisely the buffer
//! occupancy the arrival pattern forces, so the cushion has to cover it.
//!
//! It is measured as a token bucket rather than by cutting the stream into
//! bursts, because burst segmentation needs a silence threshold and any such
//! threshold is a guess about the transport. The lead is not:
//!
//! - a continuous feed delivered at the media rate never gets ahead, so its lead
//!   sits near zero however long it runs and whatever hiccups it suffers;
//! - a segment fetched at line rate gets a whole segment ahead, and its lead is
//!   one segment's worth of media, which is the answer we want.
//!
//! Cutting the stream at a silence threshold means one 300 ms hiccup on an
//! otherwise continuous feed closes a "burst" containing every packet since the
//! run began, inferring a cadence of minutes. The lead cannot make that mistake.
//!
//! Whenever delivery falls level with real time the lead is spent, which ends a
//! *cycle*; the largest lead of each of the last [`WINDOW`] cycles is kept, so a
//! single outage ages out instead of inflating the buffer for the rest of the
//! run.
//!
//! # Burst statistics
//!
//! Separately, and for reporting only, arrivals are grouped into bursts at a
//! [`BURST_SEPARATION`] threshold. This is deliberately not used for sizing: it
//! exists so the pacer reports the same headline figure an external cadence
//! instrument measures, at the same 1 ms grouping, without needing the
//! instrument.

use std::collections::VecDeque;

use vstd::prelude::*;

use crate::arith::{capped, elapsed, larger, longer, nearest, nearest_div, Nanos};

verus! {

/// Cycles whose peak lead is kept. A one-off outage delivers one abnormal cycle,
/// so a short window lets it age out while still remembering a cadence that
/// genuinely varies from segment to segment.
pub const WINDOW: usize = 8;

/// Silence separating one reported burst from the next: 1 ms.
///
/// Used for the burst statistics only, and set to match the grouping an external
/// cadence instrument uses so the two are directly comparable.
pub const BURST_SEPARATION: Nanos = 1_000_000;

/// Silence after which the input counts as between deliveries rather than mid-
/// delivery, for the start gate: 250 ms.
///
/// A MoQ egress's worst measured silence is around 150 ms and the shortest
/// inter-segment gap a segmented-HTTP feed produces is most of a second, so the
/// threshold sits between the two with margin at both ends. It decides only
/// *when* the start gate is allowed to open, never how deep the buffer is, so
/// misjudging it costs startup latency rather than correctness.
pub const DELIVERY_GAP: Nanos = 250_000_000;

/// The lead above which the input is treated as bursty rather than continuous:
/// 250 ms.
///
/// Below this the pacer starts as soon as it holds its target cushion, which is
/// what a continuous feed needs. Above it the pacer waits for a delivery to finish
/// before starting, since the size of a burst is not known until it ends.
pub const BURSTY_LEAD: Nanos = 250_000_000;

/// How long `packets` of content last at `rate` billionths of a packet per second,
/// to the nearest nanosecond.
pub open spec fn media_time(packets: u64, rate: u64) -> Nanos {
    if rate == 0 {
        0
    } else {
        nearest_div(packets * 1_000_000_000_000_000_000, rate as int) as Nanos
    }
}

/// The highest of `floor` and every lead in `leads`.
pub open spec fn highest(leads: Seq<Nanos>, floor: Nanos) -> Nanos
    decreases leads.len(),
{
    if leads.len() == 0 {
        floor
    } else {
        longer(highest(leads.drop_last(), floor), leads.last())
    }
}

/// What has been observed of the arrival pattern.
#[verifier::ext_equal]
pub struct Arrivals {
    /// When delivery was last level with real time.
    pub anchor: Option<Nanos>,
    /// Content packets delivered since then.
    pub packets: u64,
    /// Largest lead of the current cycle.
    pub peak: Nanos,
    /// Largest lead of each of the last completed cycles, oldest first.
    pub leads: Seq<Nanos>,
    /// Completed cycles.
    pub cycles: u64,
    /// When content last arrived.
    pub last_at: Option<Nanos>,
    /// Packets in the burst being grouped.
    pub burst: u64,
    /// Largest completed burst.
    pub burst_max: u64,
    /// Completed bursts.
    pub bursts: u64,
}

impl Arrivals {
    /// Nothing observed.
    pub open spec fn none() -> Arrivals {
        Arrivals {
            anchor: None,
            packets: 0,
            peak: 0,
            leads: Seq::empty(),
            cycles: 0,
            last_at: None,
            burst: 0,
            burst_max: 0,
            bursts: 0,
        }
    }

    /// A burst ends when the silence before an arrival separates it from the next.
    pub open spec fn grouped(self, now: Nanos) -> Arrivals {
        let closes = self.last_at matches Some(last) && elapsed(last, now) > BURST_SEPARATION;
        if closes {
            Arrivals {
                burst_max: larger(self.burst_max, self.burst),
                bursts: capped(self.bursts + 1),
                burst: 1,
                ..self
            }
        } else {
            Arrivals { burst: capped(self.burst + 1), ..self }
        }
    }

    /// The current cycle's lead is banked, the oldest banked one forgotten.
    pub open spec fn banked(self) -> Arrivals {
        let kept = if self.leads.len() >= WINDOW {
            self.leads.drop_first()
        } else {
            self.leads
        };
        Arrivals { leads: kept.push(self.peak), cycles: capped(self.cycles + 1), peak: 0, ..self }
    }

    /// One content packet arrives at `now`, on a stream of `rate` billionths of a
    /// packet per second.
    pub open spec fn after(self, now: Nanos, rate: u64) -> Arrivals {
        let seen = Arrivals { last_at: Some(now), ..self.grouped(now) };
        if rate == 0 {
            seen
        } else {
            let anchor = match self.anchor {
                Some(a) => a,
                None => now,
            };
            let packets = capped(self.packets + 1);
            let media = media_time(packets, rate);
            if media <= elapsed(anchor, now) {
                Arrivals { anchor: Some(now), packets: 1, ..seen.banked() }
            } else {
                Arrivals {
                    anchor: Some(anchor),
                    packets,
                    peak: longer(self.peak, (media - elapsed(anchor, now)) as Nanos),
                    ..seen
                }
            }
        }
    }

    /// How much media the input has delivered ahead of real time, at its worst
    /// over the window.
    pub open spec fn lead(self) -> Nanos {
        highest(self.leads, self.peak)
    }

    /// Whether the input delivers in bursts.
    pub open spec fn bursty(self) -> bool {
        self.lead() > BURSTY_LEAD
    }

    /// Whether the input is between deliveries at `now`.
    pub open spec fn idle(self, now: Nanos) -> bool {
        match self.last_at {
            Some(last) => elapsed(last, now) >= DELIVERY_GAP,
            None => true,
        }
    }

    /// Largest burst, the open one included.
    pub open spec fn burst_peak(self) -> u64 {
        larger(self.burst_max, self.burst)
    }
}

/// The arrival pattern of the input, as observed. See the module docs.
#[derive(Debug)]
pub struct ArrivalProfile {
    /// Wall time delivery was last level with real time: the start of the cycle
    /// whose lead is currently being measured.
    anchor: Option<Nanos>,
    /// Content packets delivered since `anchor`.
    packets: u64,
    /// Largest lead reached in the current cycle.
    peak: Nanos,
    /// Largest lead of each of the last [`WINDOW`] completed cycles, oldest first.
    leads: VecDeque<Nanos>,
    /// Completed cycles, i.e. times delivery came back level with real time.
    cycles: u64,
    /// Wall time of the most recent arrival, for both the silence tests and the
    /// burst grouping.
    last_at: Option<Nanos>,
    /// Packets in the burst currently being grouped.
    burst: u64,
    /// Largest completed burst, in packets.
    burst_max: u64,
    /// Completed bursts.
    bursts: u64,
}

impl Default for ArrivalProfile {
    fn default() -> (r: Self)
        ensures
            r@ == Arrivals::none(),
    {
        Self::new()
    }
}

impl View for ArrivalProfile {
    type V = Arrivals;

    closed spec fn view(&self) -> Arrivals {
        Arrivals {
            anchor: self.anchor,
            packets: self.packets,
            peak: self.peak,
            leads: self.leads@,
            cycles: self.cycles,
            last_at: self.last_at,
            burst: self.burst,
            burst_max: self.burst_max,
            bursts: self.bursts,
        }
    }
}

impl ArrivalProfile {
    /// A profile that has observed nothing.
    pub fn new() -> (r: Self)
        ensures
            r@ == Arrivals::none(),
    {
        ArrivalProfile {
            anchor: None,
            packets: 0,
            peak: 0,
            leads: VecDeque::new(),
            cycles: 0,
            last_at: None,
            burst: 0,
            burst_max: 0,
            bursts: 0,
        }
    }

    /// Note one content packet arriving at `now`, against the media rate the
    /// stream's own PCR implies, in billionths of a packet per second.
    ///
    /// The rate is passed in rather than held because it is recovered from PCR
    /// deltas and refined as the run goes on, and because taking it from the
    /// stream rather than from arrival is what keeps this measurement honest: a
    /// burst cannot inflate the rate it is being compared against. A zero rate
    /// means there is none yet, and only the burst statistics move.
    pub fn observe(&mut self, now: Nanos, media_rate: u64)
        ensures
            final(self)@ == old(self)@.after(now, media_rate),
    {
        self.group_burst(now);
        self.last_at = Some(now);
        if media_rate == 0 {
            return;
        }
        let anchor: Nanos = match self.anchor {
            Some(anchor) => anchor,
            None => now,
        };
        self.anchor = Some(anchor);
        self.packets = self.packets.saturating_add(1);
        let media: Nanos = media_duration(self.packets, media_rate);
        let spent: Nanos = elapsed(anchor, now);
        if media <= spent {
            // Delivery is level with real time, so whatever lead this cycle built
            // is spent. Bank it and measure the next cycle from here.
            self.close_cycle();
            self.anchor = Some(now);
            self.packets = 1;
            return;
        }
        self.peak = longer(self.peak, media - spent);
    }

    /// Bank the current cycle's peak lead and start a fresh one.
    fn close_cycle(&mut self)
        ensures
            final(self)@ == old(self)@.banked(),
    {
        if self.leads.len() >= WINDOW {
            let _ = self.leads.pop_front();
        }
        self.leads.push_back(self.peak);
        self.cycles = self.cycles.saturating_add(1);
        self.peak = 0;
    }

    /// Fold `now` into the burst statistics, closing the open burst if the
    /// silence before it separates one delivery from the next.
    fn group_burst(&mut self, now: Nanos)
        ensures
            final(self)@ == old(self)@.grouped(now),
    {
        if let Some(last) = self.last_at {
            if elapsed(last, now) > BURST_SEPARATION {
                self.burst_max = larger(self.burst_max, self.burst);
                self.bursts = self.bursts.saturating_add(1);
                self.burst = 0;
            }
        }
        self.burst = self.burst.saturating_add(1);
    }

    /// How much media the input has delivered ahead of real time, at its worst
    /// over the window.
    ///
    /// This is the depth the de-jitter cushion has to cover: a feed whose lead
    /// peaks at two seconds has, twice a second apart, handed over two seconds of
    /// programme that the output can only emit at the mux rate.
    pub fn lead(&self) -> (r: Nanos)
        ensures
            r == self@.lead(),
    {
        let mut worst: Nanos = self.peak;
        let n: usize = self.leads.len();
        for i in 0..n
            invariant
                n == self.leads@.len(),
                worst == highest(self.leads@.take(i as int), self.peak),
        {
            assert(self.leads@.take(i + 1).drop_last() =~= self.leads@.take(i as int));
            worst = longer(worst, self.leads[i]);
        }
        assert(self.leads@.take(n as int) =~= self.leads@);
        worst
    }

    /// Whether the input delivers in bursts rather than continuously.
    pub fn bursty(&self) -> (r: bool)
        ensures
            r == self@.bursty(),
    {
        self.lead() > BURSTY_LEAD
    }

    /// Whether the input has been silent long enough to count as between
    /// deliveries, so a burst it was in the middle of has finished arriving.
    pub fn between_deliveries(&self, now: Nanos) -> (r: bool)
        ensures
            r == self@.idle(now),
    {
        match self.last_at {
            Some(last) => elapsed(last, now) >= DELIVERY_GAP,
            // Nothing has arrived, so nothing is arriving.
            None => true,
        }
    }

    /// Largest burst, in packets, grouped at [`BURST_SEPARATION`].
    pub fn burst_max_packets(&self) -> (r: u64)
        ensures
            r == self@.burst_peak(),
    {
        larger(self.burst_max, self.burst)
    }

    /// Bursts completed so far.
    pub fn bursts(&self) -> (r: u64)
        ensures
            r == self@.bursts,
    {
        self.bursts
    }
}

/// How long `packets` of content lasts at `media_rate` billionths of a packet per
/// second.
pub fn media_duration(packets: u64, media_rate: u64) -> (r: Nanos)
    ensures
        r == media_time(packets, media_rate),
{
    if media_rate == 0 {
        return 0;
    }
    nearest((packets as u128) * 1_000_000_000_000_000_000, media_rate)
}

/// The lead is the largest of the current cycle's and the remembered ones: nothing
/// remembered exceeds it, and something reaches it.
pub proof fn law_lead_is_the_worst_of_the_window(leads: Seq<Nanos>, peak: Nanos)
    ensures
        highest(leads, peak) >= peak,
        forall|i: int| 0 <= i < leads.len() ==> highest(leads, peak) >= #[trigger] leads[i],
        highest(leads, peak) == peak || leads.contains(highest(leads, peak)),
    decreases leads.len(),
{
    if leads.len() > 0 {
        let shorter = leads.drop_last();
        law_lead_is_the_worst_of_the_window(shorter, peak);
        assert forall|i: int| 0 <= i < leads.len() implies highest(leads, peak)
            >= #[trigger] leads[i] by {
            if i < shorter.len() {
                assert(shorter[i] == leads[i]);
            }
        }
        if highest(leads, peak) != peak {
            if highest(leads, peak) == leads.last() {
                assert(leads[leads.len() - 1] == highest(leads, peak));
            } else {
                let j = choose|j: int|
                    0 <= j < shorter.len() && shorter[j] == highest(shorter, peak);
                assert(leads[j] == highest(leads, peak));
            }
        }
    }
}

/// `state` after further cycles that reached `peaks`.
pub open spec fn banked_over(state: Arrivals, peaks: Seq<Nanos>) -> Arrivals
    decreases peaks.len(),
{
    if peaks.len() == 0 {
        state
    } else {
        Arrivals { peak: peaks.last(), ..banked_over(state, peaks.drop_last()) }.banked()
    }
}

/// The last [`WINDOW`] of `leads`.
pub open spec fn recent(leads: Seq<Nanos>) -> Seq<Nanos> {
    if leads.len() > WINDOW {
        leads.skip(leads.len() - WINDOW)
    } else {
        leads
    }
}

/// Only the window counts: the leads remembered are those of the last cycles
/// completed, however many there were.
pub proof fn law_only_the_window_counts(state: Arrivals, peaks: Seq<Nanos>)
    requires
        state.leads.len() <= WINDOW,
    ensures
        banked_over(state, peaks).leads == recent(state.leads + peaks),
        peaks.len() > 0 ==> banked_over(state, peaks).peak == 0,
    decreases peaks.len(),
{
    if peaks.len() == 0 {
        assert(state.leads + peaks =~= state.leads);
    } else {
        law_only_the_window_counts(state, peaks.drop_last());
        let all = state.leads + peaks;
        let earlier = state.leads + peaks.drop_last();
        assert(all =~= earlier.push(peaks.last()));
        assert(banked_over(state, peaks).leads =~= recent(all));
    }
}

/// An outage ages out: once a whole window of cycles has completed after it, the lead
/// is no more than those cycles reached.
pub proof fn law_an_outage_ages_out(state: Arrivals, peaks: Seq<Nanos>, bound: Nanos)
    requires
        state.leads.len() <= WINDOW,
        peaks.len() >= WINDOW,
        forall|i: int| 0 <= i < peaks.len() ==> #[trigger] peaks[i] <= bound,
    ensures
        banked_over(state, peaks).lead() <= bound,
{
    let after = banked_over(state, peaks);
    law_only_the_window_counts(state, peaks);
    law_lead_is_the_worst_of_the_window(after.leads, after.peak);
    if after.lead() != 0 {
        let i = choose|i: int| 0 <= i < after.leads.len() && after.leads[i] == after.lead();
        let all = state.leads + peaks;
        assert(after.leads[i] == all[i + all.len() - WINDOW]);
        assert(all[i + all.len() - WINDOW] == peaks[i + peaks.len() - WINDOW]);
    }
}

/// What is observed over a whole history: arrivals at `times`, the `i`th against a
/// media rate of `rates[i]`.
pub open spec fn heard(times: Seq<Nanos>, rates: Seq<u64>) -> Arrivals
    decreases times.len(),
{
    if times.len() == 0 {
        Arrivals::none()
    } else {
        heard(times.drop_last(), rates.drop_last()).after(times.last(), rates.last())
    }
}

/// Whether the silence before arrival `i` separates it from the one before.
pub open spec fn separated(times: Seq<Nanos>, i: int) -> bool {
    0 < i < times.len() && elapsed(times[i - 1], times[i]) > BURST_SEPARATION
}

/// How many arrivals are separated from the one before.
pub open spec fn separations(times: Seq<Nanos>) -> nat
    decreases times.len(),
{
    if times.len() == 0 {
        0
    } else {
        separations(times.drop_last()) + if separated(times, times.len() - 1) {
            1nat
        } else {
            0nat
        }
    }
}

/// Whether the arrivals from `from` up to `to` came with no separating silence
/// between them.
pub open spec fn unbroken(times: Seq<Nanos>, from: int, to: int) -> bool {
    &&& 0 <= from <= to <= times.len()
    &&& forall|i: int| from < i < to ==> !#[trigger] separated(times, i)
}

/// The burst statistics of a whole history are the separating silences in it and the
/// longest stretch without one, whatever the media rates.
pub proof fn law_bursts_are_what_silence_separates(times: Seq<Nanos>, rates: Seq<u64>)
    requires
        times.len() == rates.len(),
        times.len() <= u64::MAX,
    ensures
        heard(times, rates).bursts == separations(times),
        exists|from: int|
            #[trigger] unbroken(times, from, from + heard(times, rates).burst_peak()),
        forall|from: int, to: int| #[trigger]
            unbroken(times, from, to) ==> to - from <= heard(times, rates).burst_peak(),
{
    lemma_history(times, rates);
    let seen = heard(times, rates);
    let n = times.len() as int;
    if seen.burst_max >= seen.burst {
        let at = choose|at: int| #[trigger] unbroken(times, at, at + seen.burst_max);
        assert(unbroken(times, at, at + seen.burst_peak()));
    } else {
        assert(unbroken(times, n - seen.burst, (n - seen.burst) + seen.burst_peak()));
    }
}

/// What the open burst and the largest completed one are, after a whole history.
proof fn lemma_history(times: Seq<Nanos>, rates: Seq<u64>)
    requires
        times.len() == rates.len(),
        times.len() <= u64::MAX,
    ensures
        ({
            let seen = heard(times, rates);
            let n = times.len() as int;
            &&& seen.bursts == separations(times) <= n
            &&& seen.last_at == if n == 0 {
                None
            } else {
                Some(times.last())
            }
            &&& seen.burst <= n
            &&& n > 0 ==> seen.burst >= 1
            &&& unbroken(times, n - seen.burst, n)
            &&& seen.burst < n ==> separated(times, n - seen.burst)
            &&& exists|at: int| #[trigger] unbroken(times, at, at + seen.burst_max)
            &&& forall|from: int, to: int| #[trigger]
                unbroken(times, from, to) ==> to - from <= seen.burst_max || to - from
                    <= seen.burst
        }),
    decreases times.len(),
{
    let n = times.len() as int;
    if n == 0 {
        assert(unbroken(times, 0, 0 + heard(times, rates).burst_max));
    } else {
        let earlier = times.drop_last();
        let before = heard(earlier, rates.drop_last());
        let seen = heard(times, rates);
        lemma_history(earlier, rates.drop_last());
        assert(seen == before.after(times.last(), rates.last()));
        assert forall|i: int| 0 <= i < n - 1 implies #[trigger] separated(times, i) == separated(
            earlier,
            i,
        ) by {}
        let parted = separated(times, n - 1);
        if n > 1 {
            assert(before.last_at == Some(times[n - 2]));
        }
        assert(seen.burst == if parted {
            1
        } else {
            before.burst + 1
        });
        assert(seen.burst_max == if parted {
            larger(before.burst_max, before.burst)
        } else {
            before.burst_max
        });
        let at = choose|at: int| #[trigger] unbroken(earlier, at, at + before.burst_max);
        if seen.burst_max == before.burst_max {
            assert(unbroken(times, at, at + seen.burst_max)) by {
                assert forall|i: int| at < i < at + seen.burst_max implies !#[trigger] separated(
                    times,
                    i,
                ) by {
                    assert(!separated(earlier, i));
                }
            }
        } else {
            let start = n - 1 - before.burst;
            assert(unbroken(times, start, start + seen.burst_max)) by {
                assert forall|i: int| start < i < start + seen.burst_max implies !#[trigger]
                separated(times, i) by {
                    assert(!separated(earlier, i));
                }
            }
        }
        assert(unbroken(times, n - seen.burst, n)) by {
            assert forall|i: int| n - seen.burst < i < n implies !#[trigger] separated(times, i) by {
                if i < n - 1 {
                    assert(!separated(earlier, i));
                }
            }
        }
        assert forall|from: int, to: int| #[trigger] unbroken(times, from, to) implies to - from
            <= seen.burst_max || to - from <= seen.burst by {
            if to < n {
                assert(unbroken(earlier, from, to)) by {
                    assert forall|i: int| from < i < to implies !#[trigger] separated(
                        earlier,
                        i,
                    ) by {
                        assert(!separated(times, i));
                    }
                }
            } else if from < n - seen.burst {
                assert(separated(times, n - seen.burst));
                assert(false);
            }
        }
    }
}

/// Rounding to the nearest errs by half at most on each of two parts and on their sum.
proof fn lemma_nearest_in_parts(a: int, b: int, d: int)
    requires
        a >= 0,
        b >= 0,
        d > 0,
    ensures
        nearest_div(a, d) >= 0,
        nearest_div(a, d) + nearest_div(b, d) - 1 <= nearest_div(a + b, d) <= nearest_div(a, d)
            + nearest_div(b, d) + 1,
{
    let (x, y, z) = (nearest_div(a, d), nearest_div(b, d), nearest_div(a + b, d));
    vstd::arithmetic::div_mod::lemma_fundamental_div_mod(2 * a + d, 2 * d);
    vstd::arithmetic::div_mod::lemma_fundamental_div_mod(2 * b + d, 2 * d);
    vstd::arithmetic::div_mod::lemma_fundamental_div_mod(2 * (a + b) + d, 2 * d);
    vstd::arithmetic::div_mod::lemma_mod_bound(2 * a + d, 2 * d);
    vstd::arithmetic::div_mod::lemma_mod_bound(2 * b + d, 2 * d);
    vstd::arithmetic::div_mod::lemma_mod_bound(2 * (a + b) + d, 2 * d);
    vstd::arithmetic::div_mod::lemma_div_pos_is_pos(2 * a + d, 2 * d);
    assert(x + y - 1 <= z <= x + y + 1) by (nonlinear_arith)
        requires
            2 * d * x <= 2 * a + d < 2 * d * x + 2 * d,
            2 * d * y <= 2 * b + d < 2 * d * y + 2 * d,
            2 * d * z <= 2 * (a + b) + d < 2 * d * z + 2 * d,
            d > 0,
    ;
}

/// The time of two lots of packets together is that of the one and the other, to the
/// nanosecond, and more packets last no shorter.
proof fn lemma_media_adds_up(packets: int, more: int, rate: u64)
    requires
        packets >= 0,
        more >= 0,
        packets + more <= u64::MAX,
        rate > 0,
    ensures
        ({
            let (a, b) = (media_time(packets as u64, rate), media_time(more as u64, rate));
            let both = media_time((packets + more) as u64, rate);
            &&& a + b - 1 <= both <= a + b + 1
            &&& a <= both
        }),
{
    let s = 1_000_000_000_000_000_000int;
    let (n, m) = (packets * s, more * s);
    lemma_nearest_in_parts(n, m, rate as int);
    lemma_nearest_in_parts(m, n, rate as int);
    lemma_nearest_in_parts(n + m, 0, rate as int);
    assert((packets + more) * s == n + m);
    lemma_media_fits(packets, rate);
    lemma_media_fits(more, rate);
    lemma_media_fits(packets + more, rate);
    assert(nearest_div(n, rate as int) <= nearest_div(n + m, rate as int)) by {
        vstd::arithmetic::div_mod::lemma_div_is_ordered(
            2 * n + rate,
            2 * (n + m) + rate,
            2 * (rate as int),
        );
    }
}

/// Any count of packets lasts a time that can be counted.
proof fn lemma_media_fits(packets: int, rate: u64)
    requires
        0 <= packets <= u64::MAX,
        rate > 0,
    ensures
        media_time(packets as u64, rate) == nearest_div(
            packets * 1_000_000_000_000_000_000,
            rate as int,
        ),
{
    let n = packets * 1_000_000_000_000_000_000;
    crate::arith::lemma_nearest_by_remainder(n, rate as int);
}

// --- keeping pace -------------------------------------------------------------------------

/// Whether nothing from arrival `from` on is delivered faster than the media rate, but
/// for `slack`: whatever has come since an earlier arrival has taken the time it lasts.
pub open spec fn keeps_pace(times: Seq<Nanos>, rates: Seq<u64>, from: int, slack: Nanos) -> bool {
    forall|i: int, j: int|
        #![trigger times[i], rates[j]]
        from <= i <= j < times.len() && rates[j] > 0 ==> media_time((j - i) as u64, rates[j])
            <= elapsed(times[i], times[j]) + slack
}

/// Whether `bound` is above the time of one packet at every rate from arrival `from` on,
/// with `slack` and a nanosecond for rounding.
pub open spec fn above_one_packet(
    rates: Seq<u64>,
    from: int,
    slack: Nanos,
    bound: Nanos,
) -> bool {
    forall|j: int|
        from <= j < rates.len() && #[trigger] rates[j] > 0 ==> media_time(1, rates[j]) + 1 + slack
            <= bound
}

/// How many cycles have completed since arrival `from`.
pub open spec fn cycles_since(times: Seq<Nanos>, rates: Seq<u64>, from: int) -> int {
    heard(times, rates).cycles - heard(times.take(from), rates.take(from)).cycles
}

/// Whether the newest `m` of `leads` are no more than `bound`.
spec fn newest_within(leads: Seq<Nanos>, m: int, bound: Nanos) -> bool {
    forall|i: int| 0 <= i < leads.len() && i >= leads.len() - m ==> #[trigger] leads[i] <= bound
}

/// Where a cycle is anchored, while delivery keeps pace.
spec fn anchored_at(times: Seq<Nanos>, seen: Arrivals, from: int, a: int) -> bool {
    &&& from <= a < times.len()
    &&& seen.anchor == Some(times[a])
    &&& seen.packets <= times.len() - a
}

/// What a history that keeps pace from arrival `from` on has built up.
spec fn paced(times: Seq<Nanos>, rates: Seq<u64>, from: int, bound: Nanos) -> bool {
    let seen = heard(times, rates);
    let done = cycles_since(times, rates, from);
    &&& seen.cycles <= times.len()
    &&& seen.leads.len() <= WINDOW
    &&& done >= 0
    &&& seen.anchor is None ==> seen.packets == 0 && done == 0
    &&& from == 0 || done >= 1 ==> {
        &&& seen.peak <= bound
        &&& seen.anchor is Some ==> exists|a: int| anchored_at(times, seen, from, a)
        &&& newest_within(
            seen.leads,
            if from == 0 {
                WINDOW as int
            } else {
                done - 1
            },
            bound,
        )
    }
}

/// A history has completed no more cycles than it has arrivals.
proof fn lemma_cycles_are_few(times: Seq<Nanos>, rates: Seq<u64>)
    requires
        times.len() == rates.len(),
        times.len() <= u64::MAX,
    ensures
        heard(times, rates).cycles <= times.len(),
        heard(times, rates).leads.len() <= WINDOW,
        heard(times, rates).anchor is None ==> heard(times, rates).packets == 0 && heard(
            times,
            rates,
        ).cycles == 0,
    decreases times.len(),
{
    if times.len() > 0 {
        lemma_cycles_are_few(times.drop_last(), rates.drop_last());
    }
}

/// One more arrival that keeps pace.
#[verifier::spinoff_prover]
proof fn lemma_paced(times: Seq<Nanos>, rates: Seq<u64>, from: int, slack: Nanos, bound: Nanos)
    requires
        times.len() == rates.len(),
        times.len() <= u64::MAX,
        0 <= from <= times.len(),
        keeps_pace(times, rates, from, slack),
        above_one_packet(rates, from, slack, bound),
    ensures
        paced(times, rates, from, bound),
    decreases times.len(),
{
    let n = times.len() as int;
    lemma_cycles_are_few(times, rates);
    if n == from {
        assert(times.take(from) =~= times && rates.take(from) =~= rates);
    } else {
        let (earlier, rated) = (times.drop_last(), rates.drop_last());
        let j = n - 1;
        assert(keeps_pace(earlier, rated, from, slack)) by {
            assert forall|i: int, k: int|
                #![trigger earlier[i], rated[k]]
                from <= i <= k < earlier.len() && rated[k] > 0 implies media_time(
                (k - i) as u64,
                rated[k],
            ) <= elapsed(earlier[i], earlier[k]) + slack by {
                assert(times[i] == earlier[i] && rates[k] == rated[k]);
            }
        }
        assert(above_one_packet(rated, from, slack, bound)) by {
            assert forall|k: int| from <= k < rated.len() && #[trigger] rated[k] > 0 implies media_time(
                1,
                rated[k],
            ) + 1 + slack <= bound by {
                assert(rates[k] == rated[k]);
            }
        }
        lemma_paced(earlier, rated, from, slack, bound);
        assert(earlier.take(from) =~= times.take(from) && rated.take(from) =~= rates.take(from));
        lemma_paced_step(times, rates, from, slack, bound);
    }
}

/// The step of that.
#[verifier::spinoff_prover]
#[verifier::rlimit(30)]
proof fn lemma_paced_step(
    times: Seq<Nanos>,
    rates: Seq<u64>,
    from: int,
    slack: Nanos,
    bound: Nanos,
)
    requires
        times.len() == rates.len(),
        times.len() <= u64::MAX,
        0 <= from < times.len(),
        keeps_pace(times, rates, from, slack),
        above_one_packet(rates, from, slack, bound),
        paced(times.drop_last(), rates.drop_last(), from, bound),
        times.drop_last().take(from) == times.take(from),
        rates.drop_last().take(from) == rates.take(from),
    ensures
        paced(times, rates, from, bound),
{
    let n = times.len() as int;
    let j = n - 1;
    let (earlier, rated) = (times.drop_last(), rates.drop_last());
    let before = heard(earlier, rated);
    let after = heard(times, rates);
    let (now, rate) = (times.last(), rates.last());
    let was = cycles_since(earlier, rated, from);
    let done = cycles_since(times, rates, from);
    lemma_cycles_are_few(times, rates);
    assert(after == before.after(now, rate));
    assert(times[j] == now && rates[j] == rate);
    if rate == 0 {
        if before.anchor is Some && (from == 0 || was >= 1) {
            let a = choose|a: int| anchored_at(earlier, before, from, a);
            assert(times[a] == earlier[a]);
            assert(anchored_at(times, after, from, a));
        }
    } else {
        let start = match before.anchor {
            Some(a) => a,
            None => now,
        };
        let packets = capped(before.packets + 1);
        let media = media_time(packets, rate);
        if media <= elapsed(start, now) {
            assert(anchored_at(times, after, from, j));
            assert(done == was + 1);
            if from == 0 || was >= 1 {
                let kept = if before.leads.len() >= WINDOW {
                    before.leads.drop_first()
                } else {
                    before.leads
                };
                assert(after.leads == kept.push(before.peak));
            }
        } else if from == 0 || was >= 1 {
            let a = if before.anchor is None {
                j
            } else {
                choose|a: int| anchored_at(earlier, before, from, a)
            };
            assert(start == times[a]) by {
                if before.anchor is Some {
                    assert(times[a] == earlier[a]);
                }
            }
            assert(packets <= n - a);
            lemma_media_adds_up(packets as int, (j - a) + 1 - packets, rate);
            lemma_media_adds_up(j - a, 1, rate);
            assert(media_time((j - a) as u64, rates[j]) <= elapsed(times[a], times[j]) + slack);
            assert(anchored_at(times, after, from, a));
        }
    }
}

/// A feed delivered no faster than its media rate never gets ahead: however long it runs
/// and whatever hiccups it suffers, its lead stays at the time of one packet, with what
/// it was allowed and a nanosecond for rounding. It is not bursty at any rate whose
/// packets are closer than that is to the threshold.
pub proof fn law_steady_delivery_never_gets_ahead(
    times: Seq<Nanos>,
    rates: Seq<u64>,
    slack: Nanos,
    bound: Nanos,
)
    requires
        times.len() == rates.len(),
        times.len() <= u64::MAX,
        keeps_pace(times, rates, 0, slack),
        above_one_packet(rates, 0, slack, bound),
    ensures
        heard(times, rates).lead() <= bound,
        bound <= BURSTY_LEAD ==> !heard(times, rates).bursty(),
{
    let seen = heard(times, rates);
    lemma_paced(times, rates, 0, slack, bound);
    law_lead_is_the_worst_of_the_window(seen.leads, seen.peak);
}

/// A backlog ages out: whatever came before arrival `from`, once delivery keeps pace and
/// a whole window of cycles has completed after the one that spent the backlog, the lead
/// is that of steady delivery again.
pub proof fn law_a_backlog_ages_out(
    times: Seq<Nanos>,
    rates: Seq<u64>,
    from: int,
    slack: Nanos,
    bound: Nanos,
)
    requires
        times.len() == rates.len(),
        times.len() <= u64::MAX,
        0 <= from <= times.len(),
        keeps_pace(times, rates, from, slack),
        above_one_packet(rates, from, slack, bound),
        cycles_since(times, rates, from) > WINDOW,
    ensures
        heard(times, rates).lead() <= bound,
        bound <= BURSTY_LEAD ==> !heard(times, rates).bursty(),
{
    let seen = heard(times, rates);
    lemma_paced(times, rates, from, slack, bound);
    law_lead_is_the_worst_of_the_window(seen.leads, seen.peak);
}

/// Packets that come as far apart as the media rate puts them, or further, keep pace but
/// for the nanosecond of rounding: a hiccup only puts the rest off.
pub proof fn law_delivery_at_the_media_rate_keeps_pace(
    times: Seq<Nanos>,
    rates: Seq<u64>,
    rate: u64,
)
    requires
        rate > 0,
        times.len() == rates.len(),
        times.len() <= u64::MAX,
        forall|i: int| 0 <= i < rates.len() ==> #[trigger] rates[i] == rate,
        forall|i: int, j: int|
            #![trigger times[i], times[j]]
            0 <= i <= j < times.len() ==> times[j] - times[i] >= media_time(j as u64, rate)
                - media_time(i as u64, rate),
    ensures
        keeps_pace(times, rates, 0, 1),
        above_one_packet(rates, 0, 1, (media_time(1, rate) + 2) as Nanos),
        heard(times, rates).lead() <= media_time(1, rate) + 2,
{
    let bound = (media_time(1, rate) + 2) as Nanos;
    lemma_media_fits(1, rate);
    crate::arith::lemma_nearest_by_remainder(1_000_000_000_000_000_000, rate as int);
    assert forall|i: int, j: int|
        #![trigger times[i], rates[j]]
        0 <= i <= j < times.len() && rates[j] > 0 implies media_time((j - i) as u64, rates[j])
        <= elapsed(times[i], times[j]) + 1 by {
        lemma_media_adds_up(i, j - i, rate);
        assert(times[j] - times[i] >= media_time(j as u64, rate) - media_time(i as u64, rate));
    }
    law_steady_delivery_never_gets_ahead(times, rates, 1, bound);
}

/// How far ahead of real time the open cycle stands.
spec fn standing(times: Seq<Nanos>, seen: Arrivals, rate: u64) -> int {
    media_time(seen.packets, rate) - (times.last() - seen.anchor->Some_0)
}

/// How much of what came since arrival `from` is ahead of real time.
pub open spec fn ahead_since(times: Seq<Nanos>, from: int, rate: u64) -> int {
    let n = times.len() as int;
    media_time((n - 1 - from) as u64, rate) - (times[n - 1] - times[from])
}

/// What a cycle knows of a delivery that it is part of.
#[verifier::spinoff_prover]
#[verifier::rlimit(30)]
proof fn lemma_delivery(times: Seq<Nanos>, rates: Seq<u64>, from: int, rate: u64)
    requires
        rate > 0,
        times.len() == rates.len(),
        times.len() <= u64::MAX,
        0 <= from < times.len(),
        forall|i: int, j: int|
            #![trigger times[i], times[j]]
            0 <= i <= j < times.len() ==> times[i] <= times[j],
        forall|i: int| from <= i < rates.len() ==> #[trigger] rates[i] == rate,
    ensures
        ({
            let seen = heard(times, rates);
            let slack = 2 * (times.len() - 1 - from);
            &&& seen.anchor matches Some(start) && start <= times.last()
            &&& seen.packets <= times.len()
            &&& standing(times, seen, rate) >= 0
            &&& standing(times, seen, rate) + slack >= ahead_since(times, from, rate)
            &&& seen.peak + slack >= ahead_since(times, from, rate)
        }),
    decreases times.len(),
{
    let n = times.len() as int;
    let j = n - 1;
    let (earlier, rated) = (times.drop_last(), rates.drop_last());
    let before = heard(earlier, rated);
    let seen = heard(times, rates);
    let now = times.last();
    assert(seen == before.after(now, rate)) by {
        assert(rates[j] == rate);
    }
    lemma_anchor_is_past(earlier, rated);
    let start = match before.anchor {
        Some(a) => a,
        None => now,
    };
    assert(start <= now) by {
        if n > 1 {
            assert(earlier.last() == times[n - 2]);
        }
    }
    let packets = capped(before.packets + 1);
    lemma_media_fits(1, rate);
    lemma_media_fits(0, rate);
    crate::arith::lemma_nearest_by_remainder(0, rate as int);
    assert(media_time(0, rate) == 0);
    if from < j {
        assert forall|i: int, k: int|
            #![trigger earlier[i], earlier[k]]
            0 <= i <= k < earlier.len() implies earlier[i] <= earlier[k] by {
            assert(times[i] <= times[k]);
        }
        assert forall|i: int| from <= i < rated.len() implies #[trigger] rated[i] == rate by {
            assert(rates[i] == rate);
        }
        lemma_delivery(earlier, rated, from, rate);
        lemma_media_adds_up(j - 1 - from, 1, rate);
        lemma_media_adds_up(before.packets as int, 1, rate);
        assert(earlier.last() == times[j - 1]);
        assert(earlier[from] == times[from]);
    }
}

/// A cycle is anchored at an arrival, and so not after the last one.
proof fn lemma_anchor_is_past(times: Seq<Nanos>, rates: Seq<u64>)
    requires
        times.len() == rates.len(),
        times.len() <= u64::MAX,
        forall|i: int, j: int|
            #![trigger times[i], times[j]]
            0 <= i <= j < times.len() ==> times[i] <= times[j],
    ensures
        heard(times, rates).anchor matches Some(start) ==> times.len() > 0 && start <= times.last(),
        heard(times, rates).packets <= times.len(),
    decreases times.len(),
{
    if times.len() > 0 {
        let earlier = times.drop_last();
        assert forall|i: int, j: int|
            #![trigger earlier[i], earlier[j]]
            0 <= i <= j < earlier.len() implies earlier[i] <= earlier[j] by {
            assert(times[i] <= times[j]);
        }
        lemma_anchor_is_past(earlier, rates.drop_last());
        if earlier.len() > 0 {
            assert(earlier.last() == times[times.len() - 2]);
        }
    }
}

/// A delivery leads by what it carried, less the time it took: whatever came before it,
/// and however it was spaced, the lead at its end is that to within two nanoseconds a
/// packet. A segment fetched at line rate leads by its own duration.
pub proof fn law_a_delivery_leads_by_what_it_carried(
    times: Seq<Nanos>,
    rates: Seq<u64>,
    from: int,
    rate: u64,
)
    requires
        rate > 0,
        times.len() == rates.len(),
        times.len() <= u64::MAX,
        0 <= from < times.len(),
        forall|i: int, j: int|
            #![trigger times[i], times[j]]
            0 <= i <= j < times.len() ==> times[i] <= times[j],
        forall|i: int| from <= i < rates.len() ==> #[trigger] rates[i] == rate,
    ensures
        heard(times, rates).lead() + 2 * (times.len() - 1 - from) >= ahead_since(times, from, rate),
{
    let seen = heard(times, rates);
    lemma_delivery(times, rates, from, rate);
    law_lead_is_the_worst_of_the_window(seen.leads, seen.peak);
}

} // verus!
