//! How deep things are held, in nanoseconds and in packets.

use vstd::prelude::*;

use crate::arith::{nearest_div, Nanos, Ratio};
use crate::config::{Bitrate, Clocking, Config, Latency, PcrMode, PcrPositionPolicy, Stall, StallPolicy};
use crate::schedule::State;
use crate::timing::law_a_window_is_the_packets_that_fill_it;

verus! {

/// A rounded quotient is within a half of the quotient.
proof fn lemma_nearest(n: int, d: int)
    requires
        n >= 0,
        d >= 1,
    ensures
        nearest_div(n, d) >= 0,
        2 * d * nearest_div(n, d) <= 2 * n + d,
        2 * n < 2 * d * nearest_div(n, d) + d,
{
    vstd::arithmetic::div_mod::lemma_fundamental_div_mod(2 * n + d, 2 * d);
    vstd::arithmetic::div_mod::lemma_mod_bound(2 * n + d, 2 * d);
    vstd::arithmetic::div_mod::lemma_div_pos_is_pos(2 * n + d, 2 * d);
}

/// A cushion sized from arrival is the configured multiple of the lead, to the nearest
/// nanosecond, held between the floor and the ceiling.
pub proof fn law_the_cushion_is_a_multiple_of_the_lead(
    floor: Nanos,
    ceiling: Nanos,
    factor: Ratio,
    lead: Nanos,
)
    requires
        floor <= ceiling <= 18_446_744_073_709_551_615_999_999_999,
        factor.denominator >= 1,
    ensures
        ({
            let cushion = (Latency::Adaptive { floor, ceiling, factor }).cushion(lead);
            let d = factor.denominator as int;
            let wanted = 2 * (lead * factor.numerator);
            &&& floor <= cushion <= ceiling
            &&& cushion < ceiling ==> wanted < 2 * d * cushion + d
            &&& cushion > floor ==> 2 * d * cushion <= wanted + d
        }),
{
    let d = factor.denominator as int;
    let n = lead * factor.numerator;
    assert(n >= 0) by (nonlinear_arith)
        requires
            n == lead * factor.numerator,
    ;
    lemma_nearest(n, d);
    let near = nearest_div(n, d);
    let cushion = (Latency::Adaptive { floor, ceiling, factor }).cushion(lead) as int;
    if cushion < ceiling {
        assert(near <= cushion);
        assert(2 * d * near <= 2 * d * cushion) by (nonlinear_arith)
            requires
                near <= cushion,
                d >= 1,
        ;
    }
    if cushion > floor {
        assert(cushion <= near);
        assert(2 * d * cushion <= 2 * d * near) by (nonlinear_arith)
            requires
                cushion <= near,
                d >= 1,
        ;
    }
}

/// A pinned cushion is what it was pinned to, whatever the lead, and so is its cap; a
/// cushion sized from arrival is capped at twice itself, or two seconds if that is more.
pub proof fn law_what_caps_a_cushion(latency: Latency, lead: Nanos, target: Nanos)
    requires
        2 * target <= 18_446_744_073_709_551_615_999_999_999,
    ensures
        latency matches Latency::Fixed { target: pinned, max } ==> latency.cushion(lead) == pinned
            && latency.bound(target) == max,
        latency is Adaptive ==> {
            &&& latency.bound(target) >= 2 * target
            &&& latency.bound(target) >= 2_000_000_000
            &&& latency.bound(target) == 2 * target || latency.bound(target) == 2_000_000_000
        },
{
}

/// A source is gone after the silence configured, or after the cushion and the grace
/// on top of it, or never where stalls are not looked for.
pub proof fn law_when_a_source_is_gone(stall: Stall, target: Nanos)
    ensures
        stall is Off ==> stall.limit(target) is None,
        stall matches Stall::After(timeout) ==> stall.limit(target) == Some(timeout),
        stall matches Stall::Adaptive { grace } ==> target + grace
            <= 18_446_744_073_709_551_615_999_999_999 ==> stall.limit(target) == Some(
            (target + grace) as Nanos,
        ),
{
}

/// A segment's duration asks for a cushion of two and a half segments, to the nearest
/// nanosecond, and a cap of five.
pub proof fn law_a_segmented_feed_is_held_for_two_and_a_half(segment: Nanos)
    requires
        5 * segment + 1 <= 18_446_744_073_709_551_615_999_999_999,
    ensures
        Latency::for_segments(segment) matches Latency::Fixed { target, max } && max == 2 * target
            && 5 * segment - 1 <= 2 * target <= 5 * segment + 1,
{
    let n = segment * 250;
    lemma_nearest(n, 100);
    let near = nearest_div(n, 100);
    assert(200 * near <= 500 * segment + 100 && 500 * segment < 200 * near + 100);
}

/// What is configured where nothing is said: a cushion of two and a half times the lead,
/// from 200 ms to 8 s; regenerated PCRs no more than 40 ms apart; seven packets to a
/// datagram; a source gone a second after its cushion, and muted then; arrival
/// clocking.
pub proof fn law_what_is_configured_by_default(bitrate: Bitrate)
    ensures
        ({
            let config = Config::around(bitrate);
            &&& config.bitrate == bitrate
            &&& config.latency matches Latency::Adaptive { floor, ceiling, factor }
            &&& floor == 200_000_000
            &&& ceiling == 8_000_000_000
            &&& 2 * factor.numerator == 5 * factor.denominator
            &&& config.pcr == PcrMode::Regenerate
            &&& config.packets_per_datagram == 7
            &&& config.pcr_max_interval == 40_000_000
            &&& config.stall matches Stall::Adaptive { grace }
            &&& grace == 1_000_000_000
            &&& config.stall_policy == StallPolicy::Mute
            &&& config.clocking == Clocking::Arrival
            &&& config.sequence_seed == 0
            &&& config.pcr_position_policy == PcrPositionPolicy::Report
        }),
{
}

/// A new scheduler goes by its configuration: the rate given, four megabits a second
/// where it is to be measured and could not be, and never none at all; the fewest
/// packets that fill the cushion and the cap; and a PCR at least as often as three
/// quarters of the interval allow.
pub proof fn law_a_new_scheduler_goes_by_its_configuration(config: Config)
    requires
        config.pcr_max_interval <= 18_446_744_073_709_551_615_999_999_999,
        ({
            let rate = State::initial(config).rate;
            let cushion = config.latency.cushion(0);
            let most = usize::MAX * 1504 * 1_000_000_000;
            &&& cushion * rate <= most
            &&& config.latency.bound(cushion) * rate <= most
            &&& config.pcr_max_interval * rate <= most
            &&& rate * 1_000_000_000 <= u64::MAX
        }),
    ensures
        ({
            let state = State::initial(config);
            let rate = state.rate as int;
            let cushion = config.latency.cushion(0);
            let packet = 1504 * 1_000_000_000int;
            &&& config.bitrate matches Bitrate::Constant(bps) ==> rate == (if bps == 0 {
                1
            } else {
                bps as int
            })
            &&& config.bitrate is Auto ==> rate == 4_000_000
            &&& state.per_datagram == (if config.packets_per_datagram == 0 {
                1
            } else {
                config.packets_per_datagram as int
            })
            &&& state.target == cushion
            &&& cushion * rate <= state.latency_packets * packet
            &&& state.latency_packets > 0 ==> (state.latency_packets - 1) * packet < cushion * rate
            &&& config.latency.bound(cushion) * rate <= state.capacity * packet
            &&& state.capacity > 1 ==> (state.capacity - 1) * packet < config.latency.bound(
                cushion,
            ) * rate
            &&& state.max_latency_packets == state.capacity
            &&& 3 * (config.pcr_max_interval * rate) <= 4 * (state.pcr_spacing * packet) + 2 * rate
            &&& state.pcr_spacing > 1 ==> 4 * ((state.pcr_spacing - 1) * packet) < 3 * (
            config.pcr_max_interval * rate) + 2 * rate
            &&& rate * 1_000_000_000 <= state.media.fallback * 1504
            &&& (state.media.fallback - 1) * 1504 < rate * 1_000_000_000
            &&& state.grid is Some <==> config.clocking == Clocking::Stream
            &&& state.regen is Some <==> config.pcr == PcrMode::Regenerate
            &&& state.sequence_seed == config.sequence_seed
            &&& state.slot == 0
            &&& state.anchor is None
        }),
{
    let state = State::initial(config);
    let rate = state.rate as int;
    let cushion = config.latency.cushion(0);
    let bound = config.latency.bound(cushion);
    let packet = 1504 * 1_000_000_000int;
    let i = config.pcr_max_interval as int;
    law_a_window_is_the_packets_that_fill_it(cushion, state.rate);
    law_a_window_is_the_packets_that_fill_it(bound, state.rate);
    lemma_nearest(i * 3, 4);
    let t = nearest_div(i * 3, 4);
    assert(8 * t <= 6 * i + 4 && 6 * i < 8 * t + 4);
    assert(0 <= t <= i || i == 0);
    assert(t * rate <= i * rate) by (nonlinear_arith)
        requires
            t <= i,
            rate >= 1,
    ;
    law_a_window_is_the_packets_that_fill_it(t as Nanos, state.rate);
    assert(3 * (i * rate) <= 4 * (t * rate) + 2 * rate) by (nonlinear_arith)
        requires
            6 * i < 8 * t + 4,
            rate >= 1,
    ;
    assert(4 * (t * rate) <= 3 * (i * rate) + 2 * rate) by (nonlinear_arith)
        requires
            8 * t <= 6 * i + 4,
            rate >= 1,
    ;
    assert(bound * rate >= 0 && cushion * rate >= 0 && t * rate >= 0) by (nonlinear_arith)
        requires
            t >= 0,
            rate >= 1,
    ;
}

} // verus!
