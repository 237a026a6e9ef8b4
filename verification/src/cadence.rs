//! What the arrival pattern is measured in: nanoseconds of media, of silence, and
//! packets.

use vstd::prelude::*;

use crate::arith::Nanos;
use crate::arrival::{highest, law_lead_is_the_worst_of_the_window, media_time, Arrivals};

verus! {

/// Media time is what the packets take at the rate, to the nearest nanosecond: a rate
/// is billionths of a packet each second.
pub proof fn law_media_time_is_packets_over_rate(packets: u64, rate: u64)
    requires
        rate > 0,
    ensures
        2 * media_time(packets, rate) * rate <= 2 * packets * 1_000_000_000_000_000_000 + rate,
        2 * packets * 1_000_000_000_000_000_000 <= 2 * media_time(packets, rate) * rate + rate,
{
    let n = packets * 1_000_000_000_000_000_000;
    let d = rate as int;
    let q = (2 * n + d) / (2 * d);
    vstd::arithmetic::div_mod::lemma_fundamental_div_mod(2 * n + d, 2 * d);
    vstd::arithmetic::div_mod::lemma_mod_bound(2 * n + d, 2 * d);
    assert(2 * d * q == 2 * q * d) by (nonlinear_arith);
    vstd::arithmetic::div_mod::lemma_div_pos_is_pos(2 * n + d, 2 * d);
    assert(q <= 2 * n + d) by (nonlinear_arith)
        requires
            2 * d * q <= 2 * n + d,
            d >= 1,
            q >= 0,
    ;
    assert(q == media_time(packets, rate));
}

/// A silence of more than a millisecond ends a burst: the arrival after it starts the
/// next, and what the burst had carried counts towards the largest. Within a
/// millisecond an arrival joins the burst. Without a media rate nothing else is
/// measured.
pub proof fn law_a_millisecond_of_silence_ends_a_burst(state: Arrivals, now: Nanos, rate: u64)
    requires
        state.burst < u64::MAX,
        state.bursts < u64::MAX,
        state.last_at matches Some(last) ==> last <= now,
    ensures
        ({
            let after = state.after(now, rate);
            let ends = state.last_at is Some && now - state.last_at->Some_0 > 1_000_000;
            &&& after.last_at == Some(now)
            &&& ends ==> {
                &&& after.burst == 1
                &&& after.bursts == state.bursts + 1
                &&& after.burst_max >= state.burst_max
                &&& after.burst_max >= state.burst
                &&& after.burst_max == state.burst_max || after.burst_max == state.burst
            }
            &&& rate == 0 ==> {
                &&& after.anchor == state.anchor
                &&& after.packets == state.packets
                &&& after.peak == state.peak
                &&& after.leads == state.leads
                &&& after.cycles == state.cycles
            }
            &&& !ends ==> {
                &&& after.burst == state.burst + 1
                &&& after.bursts == state.bursts
                &&& after.burst_max == state.burst_max
            }
        }),
{
}

/// The leads of the last eight cycles are remembered, the oldest forgotten first, and
/// the cycle that begins has built none.
pub proof fn law_eight_cycles_are_remembered(state: Arrivals)
    requires
        state.leads.len() <= 8,
        state.cycles < u64::MAX,
    ensures
        ({
            let after = state.banked();
            &&& after.peak == 0
            &&& after.cycles == state.cycles + 1
            &&& after.leads.last() == state.peak
            &&& state.leads.len() < 8 ==> after.leads == state.leads.push(state.peak)
            &&& state.leads.len() == 8 ==> after.leads == state.leads.skip(1).push(state.peak)
        }),
{
    assert(state.leads.len() == 8 ==> state.leads.drop_first() =~= state.leads.skip(1));
}

/// The input counts as bursty once any cycle remembered, or the one in progress, has
/// led by more than a quarter of a second.
pub proof fn law_a_quarter_second_of_lead_is_bursty(state: Arrivals)
    ensures
        state.bursty() <==> (state.peak > 250_000_000 || exists|i: int|
            0 <= i < state.leads.len() && #[trigger] state.leads[i] > 250_000_000),
{
    law_lead_is_the_worst_of_the_window(state.leads, state.peak);
    if state.bursty() && state.peak <= 250_000_000 {
        let worst = highest(state.leads, state.peak);
        let i = state.leads.index_of(worst);
        assert(state.leads[i] > 250_000_000);
    }
}

/// The input counts as between deliveries after a quarter of a second of silence, and
/// before anything has come.
pub proof fn law_a_quarter_second_is_between_deliveries(state: Arrivals, now: Nanos)
    requires
        state.last_at matches Some(last) ==> last <= now,
    ensures
        state.last_at is None ==> state.idle(now),
        state.last_at matches Some(last) ==> (state.idle(now) <==> now - last >= 250_000_000),
{
}

/// The lead is the media delivered since delivery was last level with real time, less
/// the time since then. An arrival that finds it spent ends the cycle: its worst is
/// banked, and the next is counted from there, that arrival the first of it.
pub proof fn law_the_lead_is_media_less_time(state: Arrivals, now: Nanos, rate: u64)
    requires
        rate > 0,
        state.packets < u64::MAX,
        state.anchor matches Some(anchor) ==> anchor <= now,
        state.leads.len() <= 8,
    ensures
        ({
            let anchor = match state.anchor {
                Some(anchor) => anchor,
                None => now,
            };
            let spent = now - anchor;
            let packets = state.packets + 1;
            let after = state.after(now, rate);
            &&& 2 * packets * 1_000_000_000_000_000_000 >= (2 * spent + 2) * rate ==> {
                &&& after.anchor == Some(anchor)
                &&& after.packets == packets
                &&& after.leads == state.leads
                &&& after.cycles == state.cycles
                &&& after.peak >= state.peak
                &&& 2 * (after.peak + spent) * rate + rate >= 2 * packets
                    * 1_000_000_000_000_000_000
                &&& after.peak == state.peak || 2 * (after.peak + spent) * rate <= 2 * packets
                    * 1_000_000_000_000_000_000 + rate
            }
            &&& 2 * packets * 1_000_000_000_000_000_000 + rate <= 2 * spent * rate ==> {
                &&& after.anchor == Some(now)
                &&& after.packets == 1
                &&& after.peak == 0
                &&& after.leads.last() == state.peak
            }
        }),
{
    let anchor = match state.anchor {
        Some(anchor) => anchor,
        None => now,
    };
    let spent = now - anchor;
    let packets = (state.packets + 1) as u64;
    let media = media_time(packets, rate) as int;
    let carried = 2 * packets * 1_000_000_000_000_000_000;
    law_media_time_is_packets_over_rate(packets, rate);
    if carried >= (2 * spent + 2) * rate {
        assert(media > spent) by (nonlinear_arith)
            requires
                carried <= 2 * media * rate + rate,
                carried >= (2 * spent + 2) * rate,
                rate > 0,
        ;
        let peak = state.after(now, rate).peak;
        assert(peak >= media - spent);
        assert(2 * (peak + spent) * rate >= 2 * media * rate) by (nonlinear_arith)
            requires
                peak + spent >= media,
                rate > 0,
        ;
        if peak != state.peak {
            assert(peak + spent == media);
        }
    }
    if carried + rate <= 2 * spent * rate {
        assert(media <= spent) by (nonlinear_arith)
            requires
                2 * media * rate <= carried + rate,
                carried + rate <= 2 * spent * rate,
                rate > 0,
        ;
    }
}

} // verus!
