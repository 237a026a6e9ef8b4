//! What the schedule comes to in plain units: bits, nanoseconds, and ticks of the
//! 27 MHz and 90 kHz clocks.

use vstd::prelude::*;

use crate::arith::{lemma_exact_division, Nanos};
use crate::pcr::lemma_floor_of_sum;
use crate::schedule::{packets_for, State};
use crate::slot::SlotMap;

verus! {

/// Dividing twice is dividing by the product.
proof fn lemma_divided_twice(n: int, rate: int)
    requires
        n >= 0,
        rate >= 1,
    ensures
        n * 40_608_000_000 / rate / 300 == n * 1504 * 90_000 / rate,
{
    let x = n * 135_360_000;
    assert(x >= 0 && n * 40_608_000_000 == x * 300 && n * 1504 * 90_000 == x);
    vstd::arithmetic::div_mod::lemma_div_denominator(x * 300, rate, 300);
    vstd::arithmetic::div_mod::lemma_div_denominator(x * 300, 300, rate);
    assert(rate * 300 == 300 * rate);
    lemma_exact_division(x, 300);
}

/// The low thirty-two bits of the 90 kHz count are the same whether or not the PCR
/// has wrapped: it wraps at a multiple of them.
proof fn lemma_wrapping_keeps_the_low_bits(ticks: int)
    requires
        ticks >= 0,
    ensures
        ticks % 2_576_980_377_600 / 300 % 0x1_0000_0000 == ticks / 300 % 0x1_0000_0000,
{
    let wraps = ticks / 2_576_980_377_600;
    let rest = ticks % 2_576_980_377_600;
    assert(ticks == wraps * 2_576_980_377_600 + rest);
    assert(ticks / 300 == wraps * 0x2_0000_0000 + rest / 300);
}

/// The timestamp counts 90 kHz: it is the time that the stream up to the slot takes
/// at the rate, 1504 bits to a slot, in ticks of that clock and in thirty-two bits.
proof fn lemma_timestamp(state: State)
    requires
        state.rate >= 1,
        state.grid matches Some(grid) && grid.map.mux_rate_bps == state.rate,
    ensures
        state.framing() is Some,
        state.framing()->Some_0.timestamp_90khz == (state.slot * 1504 * 90_000 / state.rate as int)
            % 0x1_0000_0000,
        state.slot * 1504 * 90_000 / state.rate as int >= 0,
{
    let ticks = crate::slot::ticks_at(state.slot as int, state.rate as int);
    vstd::arithmetic::div_mod::lemma_div_pos_is_pos(
        state.slot * 40_608_000_000,
        state.rate as int,
    );
    vstd::arithmetic::div_mod::lemma_div_pos_is_pos(
        state.slot * 1504 * 90_000,
        state.rate as int,
    );
    vstd::arithmetic::div_mod::lemma_mod_bound(ticks, 2_576_980_377_600);
    lemma_wrapping_keeps_the_low_bits(ticks);
    lemma_divided_twice(state.slot as int, state.rate as int);
}

/// The timestamp of a datagram is its slot's PCR on the 90 kHz clock: three hundred
/// ticks of the one are a tick of the other, and thirty-two bits of it are kept.
pub proof fn law_the_timestamp_is_the_pcr_at_90_khz(state: State)
    requires
        state.wf(),
        state.grid is Some,
    ensures
        ({
            let pcr = state.slot * 1504 * 27_000_000 / state.rate as int % 2_576_980_377_600;
            let stamp = state.framing()->Some_0.timestamp_90khz as int;
            &&& state.framing() is Some
            &&& state.framing()->Some_0.slot == state.slot
            &&& 300 * stamp <= pcr % 1_288_490_188_800 < 300 * (stamp + 1)
        }),
{
    let ticks = state.slot * 1504 * 27_000_000 / state.rate as int;
    assert(state.slot * 1504 * 27_000_000 == state.slot * 40_608_000_000);
    let pcr = ticks % 2_576_980_377_600;
    let stamp = state.framing()->Some_0.timestamp_90khz as int;
    assert(stamp == pcr / 300 % 0x1_0000_0000);
}

/// Timestamps advance at 90 kHz: between two slots of one output the timestamp moves
/// by the time that the slots between them take at the rate, to within the one tick
/// that whole numbers leave, and wraps at thirty-two bits.
pub proof fn law_timestamps_advance_at_90_khz(one: State, other: State)
    requires
        one.wf(),
        other.wf(),
        one.grid is Some,
        other.grid is Some,
        one.rate == other.rate,
        one.slot <= other.slot,
    ensures
        ({
            let first = one.framing()->Some_0.timestamp_90khz;
            let second = other.framing()->Some_0.timestamp_90khz;
            let elapsed = (other.slot - one.slot) * 1504 * 90_000 / one.rate as int;
            ||| second == (first + elapsed) % 0x1_0000_0000
            ||| second == (first + elapsed + 1) % 0x1_0000_0000
        }),
{
    let rate = one.rate as int;
    lemma_timestamp(one);
    lemma_timestamp(other);
    let a = one.slot * 1504 * 90_000;
    let b = (other.slot - one.slot) * 1504 * 90_000;
    assert(other.slot * 1504 * 90_000 == a + b);
    lemma_floor_of_sum(a, b, rate);
    lemma_low_bits_add_up(a / rate, b / rate);
    lemma_low_bits_add_up(a / rate, b / rate + 1);
}

/// Thirty-two bits of a count and what is added to it are thirty-two bits of the sum.
proof fn lemma_low_bits_add_up(count: int, more: int)
    ensures
        (count % 0x1_0000_0000 + more) % 0x1_0000_0000 == (count + more) % 0x1_0000_0000,
{
    vstd::arithmetic::div_mod::lemma_add_mod_noop_right(more, count, 0x1_0000_0000);
}

/// Datagrams are numbered by where they stand: one `n` datagrams further on is
/// numbered `n` higher, in sixteen bits, and the one at the head of the stream takes
/// the seed.
pub proof fn law_the_sequence_counts_datagrams(one: State, other: State, n: int)
    requires
        one.per_datagram >= 1,
        other.per_datagram == one.per_datagram,
        other.sequence_seed == one.sequence_seed,
        one.grid is Some,
        other.grid is Some,
        n >= 0,
        other.slot == one.slot + n * one.per_datagram,
    ensures
        other.framing()->Some_0.sequence == (one.framing()->Some_0.sequence + n) % 0x1_0000,
        one.slot < one.per_datagram ==> one.framing()->Some_0.sequence == one.sequence_seed,
{
    let per = one.per_datagram as int;
    vstd::arithmetic::div_mod::lemma_hoist_over_denominator(one.slot as int, n, per as nat);
    vstd::arithmetic::div_mod::lemma_div_pos_is_pos(one.slot as int, per);
    if one.slot < one.per_datagram {
        vstd::arithmetic::div_mod::lemma_basic_div(one.slot as int, per);
    }
}

/// The wire rate is the one configured: between two slots of one output, with its
/// clock set, lie the nanoseconds that the bits of the slots between them take, 1504
/// to a slot, to within the one that whole numbers leave.
pub proof fn law_slots_are_due_at_the_rate(one: State, other: State, at: Nanos)
    requires
        one.rate >= 1,
        other.rate == one.rate,
        one.anchor == Some(at),
        other.anchor == Some(at),
        one.anchor_slot == other.anchor_slot,
        one.anchor_slot <= one.slot <= other.slot,
        (other.slot - one.anchor_slot) * 1504 * 1_000_000_000 / one.rate as int <= u64::MAX,
        at + u64::MAX <= u128::MAX,
    ensures
        ({
            let apart = (other.slot - one.slot) * 1504 * 1_000_000_000 / one.rate as int;
            &&& one.due() is Some
            &&& other.due() is Some
            &&& apart <= other.due()->Some_0 - one.due()->Some_0 <= apart + 1
            &&& one.slot == one.anchor_slot ==> one.due() == Some(at)
        }),
{
    let rate = one.rate as int;
    let a = (one.slot - one.anchor_slot) * 1504 * 1_000_000_000;
    let b = (other.slot - one.slot) * 1504 * 1_000_000_000;
    assert((other.slot - one.anchor_slot) * 1504 * 1_000_000_000 == a + b);
    lemma_floor_of_sum(a, b, rate);
    vstd::arithmetic::div_mod::lemma_div_pos_is_pos(a, rate);
    vstd::arithmetic::div_mod::lemma_div_pos_is_pos(b, rate);
    if one.slot == one.anchor_slot {
        vstd::arithmetic::div_mod::lemma_div_of0(rate);
    }
}

/// A window of time is the fewest packets that fill it: their bits take no less than
/// the window at the rate, and one fewer would.
pub proof fn law_a_window_is_the_packets_that_fill_it(latency: Nanos, rate: u64)
    requires
        latency * rate <= usize::MAX * 1504 * 1_000_000_000,
    ensures
        ({
            let n = packets_for(latency, rate) as int;
            &&& latency * rate <= n * 1504 * 1_000_000_000
            &&& n > 0 ==> (n - 1) * 1504 * 1_000_000_000 < latency * rate
        }),
{
    assert(latency * rate >= 0) by (nonlinear_arith);
    let n = (latency * rate + 1_504_000_000_000 - 1) / 1_504_000_000_000;
    assert(0 <= n <= usize::MAX);
}

/// A slot's PCR is where it stands on the byte clock: the ticks that the bits before
/// it take at the rate, the last of them begun, on a clock that wraps.
pub proof fn law_a_slots_pcr_is_the_time_of_its_bits(map: SlotMap, slot: u64)
    requires
        map.mux_rate_bps >= 1,
    ensures
        exists|wraps: int|
            #![trigger wraps * 2_576_980_377_600]
            {
                let ticks = wraps * 2_576_980_377_600 + map.pcr(slot);
                &&& wraps >= 0
                &&& ticks * map.mux_rate_bps <= slot * 1504 * 27_000_000
                &&& slot * 1504 * 27_000_000 < (ticks + 1) * map.mux_rate_bps
            },
        map.pcr(slot) < 2_576_980_377_600,
{
    let rate = map.mux_rate_bps as int;
    let bits = slot * 40_608_000_000;
    let ticks = bits / rate;
    assert(slot * 1504 * 27_000_000 == bits);
    vstd::arithmetic::div_mod::lemma_fundamental_div_mod(bits, rate);
    vstd::arithmetic::div_mod::lemma_mod_bound(bits, rate);
    vstd::arithmetic::div_mod::lemma_div_pos_is_pos(bits, rate);
    assert(ticks * rate == rate * ticks && (ticks + 1) * rate == rate * ticks + rate)
        by (nonlinear_arith);
    let wraps = ticks / 2_576_980_377_600;
    assert(ticks == wraps * 2_576_980_377_600 + map.pcr(slot));
}

/// The slot of a PCR is the last one to begin by then: the bits of the slots before
/// it fit in the time, and those of one more do not.
pub proof fn law_a_pcrs_slot_is_the_one_it_falls_in(map: SlotMap, pcr: u64)
    requires
        pcr * map.mux_rate_bps / 40_608_000_000 <= u64::MAX,
    ensures
        map.slot(pcr) * 1504 * 27_000_000 <= pcr * map.mux_rate_bps,
        pcr * map.mux_rate_bps < (map.slot(pcr) + 1) * 1504 * 27_000_000,
{
    let n = pcr * map.mux_rate_bps;
    assert(n >= 0) by (nonlinear_arith)
        requires
            n == pcr * map.mux_rate_bps,
    ;
    vstd::arithmetic::div_mod::lemma_small_mod(
        (n / 40_608_000_000) as nat,
        0x1_0000_0000_0000_0000,
    );
}

} // verus!
