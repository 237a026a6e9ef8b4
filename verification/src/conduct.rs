//! What the scheduler does in each situation, in terms of what it holds and when.

use vstd::prelude::*;

use crate::arith::Nanos;
use crate::config::Latency;
use crate::observe::SourceState;
use crate::packet::{is_packet, pid_of};
use crate::passage::carried;
use crate::pcr::{law_restamp_touches_only_the_clock, locked_pcr, pcr_of};
use crate::schedule::{packets_for, time_for, State};
use crate::timing::law_a_window_is_the_packets_that_fill_it;

verus! {

// --- input ------------------------------------------------------------------------------

/// Stuffing is counted and goes no further: nothing else of the scheduler changes.
pub proof fn law_stuffing_is_stripped(state: State, packet: Seq<u8>, now: Nanos)
    requires
        (packet[1] as int % 32) * 256 + packet[2] == 0x1fff,
        state.stats.input_nulls_stripped < u64::MAX,
    ensures
        ({
            let after = state.enqueued(packet, now);
            &&& after.stats.input_nulls_stripped == state.stats.input_nulls_stripped + 1
            &&& after.stats.dropped_packets == state.stats.dropped_packets
            &&& after.buffer == state.buffer
            &&& after.deferred == state.deferred
            &&& after.grid == state.grid
            &&& after.media == state.media
            &&& after.arrivals == state.arrivals
            &&& after.last_content_at == state.last_content_at
            &&& after.first_content_at == state.first_content_at
            &&& after.pcr_pid == state.pcr_pid
            &&& after.anchor == state.anchor
            &&& after.stalled == state.stalled
            &&& state.sample(packet, now) is None
        }),
{
}

/// Content is heard: when it first came is kept, when it last came is noted, the PCR PID
/// is that of the first packet with a PCR, and the silence it ends counts towards the
/// longest, in whole milliseconds.
pub proof fn law_content_is_heard(state: State, packet: Seq<u8>, now: Nanos)
    requires
        state.last_content_at matches Some(last) ==> last <= now && (now - last) / 1_000_000
            <= u64::MAX,
    ensures
        ({
            let after = state.noted(packet, now);
            let gap = match state.last_content_at {
                Some(last) => (now - last) / 1_000_000,
                None => 0,
            };
            &&& after.last_content_at == Some(now)
            &&& after.first_content_at == (match state.first_content_at {
                Some(first) => Some(first),
                None => Some(now),
            })
            &&& state.pcr_pid is Some ==> after.pcr_pid == state.pcr_pid
            &&& state.pcr_pid is None ==> after.pcr_pid == (if pcr_of(packet) is Some {
                Some(pid_of(packet))
            } else {
                None
            })
            &&& !after.stalled
            &&& after.stats.content_gap_max_ms >= gap
            &&& after.stats.content_gap_max_ms >= state.stats.content_gap_max_ms
            &&& after.stats.content_gap_max_ms == gap || after.stats.content_gap_max_ms
                == state.stats.content_gap_max_ms
        }),
{
}

/// A pinned output starts a cushion after its first content, both clocks together, and
/// later content does not put it off.
pub proof fn law_a_pinned_output_starts_a_cushion_later(state: State, packet: Seq<u8>, now: Nanos)
    requires
        state.latency is Fixed,
        state.grid is None,
        !state.stalled,
        pid_of(packet) != 0x1fff,
        now + state.target <= u128::MAX,
    ensures
        ({
            let after = state.enqueued(packet, now);
            &&& state.anchor is None ==> after.anchor == Some((now + state.target) as Nanos)
                && after.media.anchor == after.anchor
            &&& state.anchor is Some ==> after.anchor == state.anchor && after.media.anchor
                == state.media.anchor
            &&& after.target == state.target
        }),
{
}

/// An output with a cushion sized from arrival starts once it holds the cushion and is
/// not in the middle of a burst, or once it has waited the ceiling since its first
/// content, and then at once.
pub proof fn law_an_adaptive_output_starts_once_primed(
    state: State,
    now: Nanos,
    first: Nanos,
    ceiling: Nanos,
)
    requires
        state.anchor is None,
        state.grid is None,
        state.first_content_at == Some(first),
        first <= now,
        state.latency matches Latency::Adaptive { ceiling: most, .. } && most == ceiling,
        state.buffer.len() + state.deferred.len() <= usize::MAX,
    ensures
        ({
            let held = state.buffer.len() + state.deferred.len();
            let primed = held >= state.latency_packets && (!state.arrivals.bursty()
                || state.arrivals.idle(now));
            &&& primed || now - first >= ceiling ==> state.polled(now).anchor == Some(now)
                && state.polled(now).media.anchor == Some(now)
            &&& !primed && now - first < ceiling ==> state.polled(now).anchor is None
        }),
{
}

/// Where the cushion is sized from arrival the depths follow it: the cushion is the one
/// its lead asks for, in the fewest packets that fill it, and room is made for its cap
/// but never taken away.
pub proof fn law_the_depths_follow_the_lead(state: State)
    requires
        state.latency is Adaptive,
        ({
            let cushion = state.latency.cushion(state.arrivals.lead());
            let most = usize::MAX * 1504 * 1_000_000_000;
            &&& cushion * state.rate <= most
            &&& state.latency.bound(cushion) * state.rate <= most
        }),
    ensures
        ({
            let after = state.resized();
            let cushion = state.latency.cushion(state.arrivals.lead());
            let cap = state.latency.bound(cushion) * state.rate;
            let packet = 1504 * 1_000_000_000int;
            &&& after.target == cushion
            &&& cushion * state.rate <= after.latency_packets * packet
            &&& after.latency_packets > 0 ==> (after.latency_packets - 1) * packet < cushion
                * state.rate
            &&& cap <= after.capacity * packet
            &&& after.capacity > 1 ==> after.capacity == state.capacity || (after.capacity - 1)
                * packet < cap
            &&& after.capacity >= state.capacity
            &&& after.max_latency_packets >= state.max_latency_packets
            &&& cap <= after.max_latency_packets * packet
        }),
{
    let cushion = state.latency.cushion(state.arrivals.lead());
    let bound = state.latency.bound(cushion);
    law_a_window_is_the_packets_that_fill_it(cushion, state.rate);
    law_a_window_is_the_packets_that_fill_it(bound, state.rate);
    let packet = 1504 * 1_000_000_000int;
    let n = packets_for(bound, state.rate) as int;
    assert(bound * state.rate >= 0) by (nonlinear_arith);
    assert(n * packet <= state.resized().capacity * packet) by (nonlinear_arith)
        requires
            n <= state.resized().capacity,
            packet > 0,
    ;
    assert(n * packet <= state.resized().max_latency_packets * packet) by (nonlinear_arith)
        requires
            n <= state.resized().max_latency_packets,
            packet > 0,
    ;
}

// --- liveness ---------------------------------------------------------------------------

/// What the input is doing: priming until the output runs; live while there is content
/// to send, however long the silence; then starved after a cushion of silence and
/// stalled after the limit.
pub proof fn law_what_the_source_is_doing(state: State, now: Nanos)
    requires
        state.last_content_at matches Some(last) ==> last <= now,
    ensures
        ({
            let runs = state.last_content_at is Some && state.anchor is Some && now
                >= state.anchor->Some_0;
            let sends = state.deferred.len() > 0 || (match state.grid {
                Some(grid) => grid.placed.len() > 0,
                None => state.buffer.len() > 0,
            });
            let silence = now - state.last_content_at->Some_0;
            let limit = state.stall.limit(state.target);
            let gone = limit is Some && silence >= limit->Some_0;
            &&& !runs <==> state.source(now) == SourceState::Priming
            &&& runs && sends ==> state.source(now) == SourceState::Live
            &&& runs && !sends && gone ==> state.source(now) == SourceState::Stalled
            &&& runs && !sends && !gone && silence >= state.target ==> state.source(now)
                == SourceState::Starved
            &&& runs && !sends && !gone && silence < state.target ==> state.source(now)
                == SourceState::Live
        }),
{
}

/// A stall is entered once and left as soon as the input is anything else.
pub proof fn law_a_stall_is_entered_once(state: State, now: Nanos)
    requires
        state.stats.stalls < u64::MAX,
    ensures
        ({
            let after = state.observed(now);
            let stalls = state.source(now) is Stalled;
            &&& after.stalled == stalls
            &&& after.stats.stalls == state.stats.stalls + (if stalls && !state.stalled {
                1int
            } else {
                0int
            })
            &&& after.slot == state.slot
            &&& after.anchor == state.anchor
        }),
{
}

// --- the live edge ----------------------------------------------------------------------

/// Until something has gone out the output stands one cushion back from the newest
/// packet placed, but not before the oldest, on the datagram boundary at or before
/// that; it is due a cushion after the first placement.
pub proof fn law_a_joining_output_stands_a_cushion_back(state: State, now: Nanos)
    requires
        state.per_datagram >= 1,
        state.grid matches Some(grid) && grid.placed.len() > 0,
        state.stats.output_packets == 0,
        now + state.target <= u128::MAX,
        state.grid->Some_0.placed.first().0 <= state.grid->Some_0.placed.last().0,
    ensures
        ({
            let after = state.phased(now);
            let first = state.grid->Some_0.placed.first().0;
            let edge = state.grid->Some_0.placed.last().0;
            let per = state.per_datagram as int;
            let start = if edge - state.latency_packets >= first {
                edge - state.latency_packets
            } else {
                first as int
            };
            &&& after.slot as int % per == 0
            &&& after.slot <= start < after.slot + per
            &&& after.anchor_slot == after.slot
            &&& after.stats.start_backlog == edge - first
            &&& state.anchor is None ==> after.anchor == Some((now + state.target) as Nanos)
            &&& state.anchor is Some ==> after.anchor == state.anchor
        }),
{
    let per = state.per_datagram as int;
    let first = state.grid->Some_0.placed.first().0;
    let edge = state.grid->Some_0.placed.last().0;
    let start = if edge - state.latency_packets >= first {
        edge - state.latency_packets
    } else {
        first as int
    };
    lemma_boundary(start, per);
}

/// The boundary at or before a slot.
proof fn lemma_boundary(start: int, per: int)
    requires
        start >= 0,
        per >= 1,
    ensures
        (start / per) * per <= start < (start / per) * per + per,
        (start / per) * per % per == 0,
        0 <= start / per,
{
    vstd::arithmetic::div_mod::lemma_fundamental_div_mod(start, per);
    vstd::arithmetic::div_mod::lemma_mod_bound(start, per);
    vstd::arithmetic::div_mod::lemma_div_pos_is_pos(start, per);
    assert((start / per) * per == per * (start / per)) by (nonlinear_arith);
    vstd::arithmetic::div_mod::lemma_mod_multiples_basic(start / per, per);
}

/// An output that has fallen further behind the newest packet than its depth allows
/// moves up to a cushion behind it, on a datagram boundary, due at once; what it had
/// waiting to go is lost, and counted. Otherwise nothing changes.
pub proof fn law_a_late_output_moves_up(state: State, now: Nanos)
    requires
        state.per_datagram >= 1,
        state.grid matches Some(grid) && grid.placed.len() > 0,
        state.latency_packets <= state.grid->Some_0.placed.last().0,
        state.latency_packets + state.per_datagram <= state.max_latency_packets,
        state.stats.late_drops + state.deferred.len() <= u64::MAX,
        state.stats.resyncs < u64::MAX,
    ensures
        ({
            let after = state.caught_up(now);
            let edge = state.grid->Some_0.placed.last().0;
            let per = state.per_datagram as int;
            if edge - state.slot > state.max_latency_packets {
                &&& after.slot > state.slot
                &&& after.slot as int % per == 0
                &&& after.slot <= edge - state.latency_packets < after.slot + per
                &&& after.anchor_slot == after.slot
                &&& after.anchor == Some(now)
                &&& after.deferred.len() == 0
                &&& after.stats.late_drops == state.stats.late_drops + state.deferred.len()
                &&& after.stats.resyncs == state.stats.resyncs + 1
                &&& after.grid == state.grid
            } else {
                after == state
            }
        }),
{
    let per = state.per_datagram as int;
    let edge = state.grid->Some_0.placed.last().0;
    lemma_boundary(edge - state.latency_packets, per);
}

// --- output -----------------------------------------------------------------------------

/// Every PCR that goes out is where its packet stands on the byte clock. Under stream
/// clocking that is its slot on the grid. Under arrival clocking it is the PCR of the
/// last re-base plus the ticks that the packets since then take, 1504 bits each.
pub proof fn law_every_pcr_sent_is_on_the_byte_clock(state: State, due: u64, stalled: bool)
    requires
        state.wf(),
        state.regen is Some,
        state.regen->Some_0.anchor matches Some(anchor) ==> anchor.0 <= state.slot,
        pcr_of(state.packet_out(due, stalled)) is Some,
    ensures
        ({
            let pcr = pcr_of(state.packet_out(due, stalled))->Some_0 as int;
            let after = state.packet_sent(due, stalled);
            match state.grid {
                Some(_) => pcr == state.slot * 1504 * 27_000_000 / state.rate as int
                    % 2_576_980_377_600,
                None => {
                    &&& after.regen is Some
                    &&& after.regen->Some_0.anchor matches Some(anchor)
                    &&& anchor.0 <= state.slot
                    &&& pcr == (anchor.1 + (state.slot - anchor.0) * 1504 * 27_000_000
                        / state.rate as int) % 2_576_980_377_600
                },
            }
        }),
{
    let ready = state.admitted(state.media.released < due);
    assert(ready.slot == state.slot && ready.regen == state.regen && ready.rate == state.rate);
    if let Some(grid) = state.grid {
        crate::laws::law_emitted_pcr_is_the_slot_it_sits_in(state, due, stalled);
        assert(state.slot * 1504 * 27_000_000 == state.slot * 40_608_000_000);
    } else {
        assert(ready.grid is None);
        let regen = state.regen->Some_0;
        match ready.insertion(stalled) {
            Some(pcr) => {
                let anchor = regen.anchor->Some_0;
                lemma_on_the_byte_clock(anchor, state.rate, state.slot);
                crate::null_insertion::law_pcr_only_packet_carries_its_clock(
                    ready.pcr_pid->Some_0,
                    ready.pcr_pid_cc,
                    pcr,
                );
            },
            None => {
                if ready.deferred.len() > 0 {
                    let packet = ready.deferred.first();
                    assert(is_packet(packet)) by {
                        lemma_next_is_a_packet(state, state.media.released < due);
                    }
                    crate::repetition::lemma_content_keeps_its_pcr(ready, packet);
                    let src = pcr_of(packet)->Some_0;
                    let anchor = regen.anchor_at(src, state.slot);
                    lemma_on_the_byte_clock(anchor, state.rate, state.slot);
                    law_restamp_touches_only_the_clock(
                        packet,
                        locked_pcr(anchor, state.rate, state.slot) as int,
                        regen.rebases(src) || regen.flag_next,
                    );
                } else {
                    crate::repetition::lemma_what_is_inserted(0, 0, 0);
                }
            },
        }
    }
}

/// The packet next in line is a packet.
proof fn lemma_next_is_a_packet(state: State, wanted: bool)
    requires
        state.wf(),
        state.grid is None,
        state.admitted(wanted).deferred.len() > 0,
    ensures
        is_packet(state.admitted(wanted).deferred.first()),
{
    let ready = state.admitted(wanted);
    if state.deferred.len() > 0 {
        assert(ready.deferred.first() == state.deferred[0]);
    } else {
        assert(ready.deferred.first() == state.buffer[0]);
    }
}

/// The byte clock in plain terms.
proof fn lemma_on_the_byte_clock(anchor: (u64, u64), rate: u64, slot: u64)
    requires
        rate >= 1,
        anchor.0 <= slot,
    ensures
        locked_pcr(anchor, rate, slot) == (anchor.1 + (slot - anchor.0) * 1504 * 27_000_000
            / rate as int) % 2_576_980_377_600,
        locked_pcr(anchor, rate, slot) < 2_576_980_377_600,
{
    assert((slot - anchor.0) * 1504 * 27_000_000 == (slot - anchor.0) * 40_608_000_000);
    vstd::arithmetic::div_mod::lemma_div_pos_is_pos(
        (slot - anchor.0) * 40_608_000_000,
        rate as int,
    );
    vstd::arithmetic::div_mod::lemma_mod_bound(
        anchor.1 + (slot - anchor.0) * 40_608_000_000 / rate as int,
        2_576_980_377_600,
    );
}

/// What goes out is counted as what it is: content, a PCR of the scheduler's own, or
/// stuffing; and stuffing in place of content that was due counts as an underrun while
/// the source is not given up on.
#[verifier::spinoff_prover]
pub proof fn law_what_goes_out_is_counted(state: State, due: u64, stalled: bool)
    requires
        state.wf(),
        state.slot < u64::MAX,
        state.stats.output_packets < u64::MAX,
        state.stats.content_packets < u64::MAX,
        state.stats.null_packets < u64::MAX,
        state.stats.pcr_inserted < u64::MAX,
        state.stats.underruns < u64::MAX,
    ensures
        ({
            let after = state.packet_sent(due, stalled);
            let out = state.packet_out(due, stalled);
            let content = carried(state, due, stalled) is Some;
            let null = !content && pid_of(out) == 0x1fff;
            &&& after.slot == state.slot + 1
            &&& after.stats.output_packets == state.stats.output_packets + 1
            &&& after.stats.content_packets == state.stats.content_packets + (if content {
                1int
            } else {
                0int
            })
            &&& after.stats.null_packets == state.stats.null_packets + (if null {
                1int
            } else {
                0int
            })
            &&& after.stats.pcr_inserted == state.stats.pcr_inserted + (if !content && !null {
                1int
            } else {
                0int
            })
            &&& after.stats.underruns == state.stats.underruns + (if null && state.media.released
                < due && !stalled {
                1int
            } else {
                0int
            })
        }),
{
    let ready = state.admitted(state.media.released < due);
    assert(ready.pcr_pid == state.pcr_pid);
    if let Some(pcr) = ready.insertion(stalled) {
        let pid = ready.pcr_pid->Some_0;
        assert(pid < 0x1fff);
        assert(pid_of(state.packet_out(due, stalled)) == pid);
    }
    crate::null_insertion::law_null_packet_is_stuffing();
}

/// A re-base is counted for each source PCR that stands still or leaps by more than five
/// seconds, where PCRs are regenerated under arrival clocking, and for nothing else.
pub proof fn law_splices_are_counted(
    state: State,
    packet: Seq<u8>,
    previous: u64,
    src: u64,
)
    requires
        state.regen is Some,
        state.grid is None,
        state.regen->Some_0.anchor is Some,
        state.regen->Some_0.last_src == Some(previous),
        pcr_of(packet) == Some(src),
        previous < 2_576_980_377_600,
        src < 2_576_980_377_600,
        state.stats.pcr_rebases < u64::MAX,
    ensures
        ({
            let step = (src - previous) % 2_576_980_377_600;
            let after = state.content_sent(packet);
            &&& after.stats.pcr_rebases == state.stats.pcr_rebases + (if step == 0 || step
                > 135_000_000 {
                1int
            } else {
                0int
            })
            &&& after.last_pcr_index == Some(state.slot)
        }),
{
    crate::pcr::lemma_distance_is_a_difference(previous, src);
    let step = crate::pcr::pcr_distance(previous, src) as int;
    assert(step > 135_000_000 <==> step * 1000 / 27 > 5_000_000_000);
}

/// A PCR is put in as soon as the last to go out is a whole spacing back, unless the
/// source is given up on, or the content next to go carries one.
pub proof fn law_a_pcr_is_put_in_when_due(state: State, stalled: bool, last: u64)
    requires
        state.wf(),
        state.regen is Some,
        state.pcr_pid is Some,
        state.last_pcr_index == Some(last),
    ensures
        state.insertion(stalled) is Some <==> !stalled && state.slot - last >= state.pcr_spacing
            && !(state.deferred.len() > 0 && pcr_of(state.deferred[0]) is Some),
{
    if state.deferred.len() > 0 {
        assert(state.deferred.first() == state.deferred[0]);
    }
}

// --- readings ---------------------------------------------------------------------------

/// What is read off: the media rate in bits a second, 1504 to a packet; lead and cushion
/// in whole milliseconds; the packets held; and how far placement strayed, in packets
/// and in the milliseconds that they take.
pub proof fn law_what_is_read_off(state: State)
    requires
        state.rate >= 1,
        state.media.basis() * 1504 / 1_000_000_000 <= u64::MAX,
        state.arrivals.lead() / 1_000_000 <= u64::MAX,
        state.target / 1_000_000 <= u64::MAX,
        state.grid is None,
        state.buffer.len() + state.deferred.len() <= usize::MAX,
        state.stats.pcr_position_displacement * 1504 * 1_000_000_000 / state.rate as int
            <= u64::MAX,
    ensures
        ({
            let stats = state.snapshot();
            let rate = state.media.basis();
            let strayed = state.stats.pcr_position_displacement * 1504 * 1_000_000_000
                / state.rate as int;
            &&& stats.media_rate_bps * 1_000_000_000 <= rate * 1504
            &&& rate * 1504 < (stats.media_rate_bps + 1) * 1_000_000_000
            &&& stats.arrival_lead_ms * 1_000_000 <= state.arrivals.lead()
            &&& state.arrivals.lead() < (stats.arrival_lead_ms + 1) * 1_000_000
            &&& stats.latency_target_ms * 1_000_000 <= state.target
            &&& state.target < (stats.latency_target_ms + 1) * 1_000_000
            &&& stats.buffer_packets == state.buffer.len() + state.deferred.len()
            &&& stats.pcr_position_displacement_ms * 1_000_000 <= strayed
            &&& strayed < (stats.pcr_position_displacement_ms + 1) * 1_000_000
            &&& stats.burst_max_packets >= state.arrivals.burst
            &&& stats.burst_max_packets >= state.arrivals.burst_max
            &&& stats.bursts == state.arrivals.bursts
            &&& stats.output_packets == state.stats.output_packets
            &&& stats.content_packets == state.stats.content_packets
            &&& stats.dropped_packets == state.stats.dropped_packets
        }),
{
    vstd::arithmetic::div_mod::lemma_div_pos_is_pos(
        state.stats.pcr_position_displacement * 1504 * 1_000_000_000,
        state.rate as int,
    );
    assert(time_for(state.stats.pcr_position_displacement, state.rate)
        == state.stats.pcr_position_displacement * 1504 * 1_000_000_000 / state.rate as int);
}

/// Placement has diverged once it has run past the source's grid by more packets than
/// the output may be behind.
pub proof fn law_when_placement_has_diverged(state: State)
    ensures
        state.grid is None ==> !state.diverged(),
        state.grid matches Some(grid) ==> (state.diverged() <==> grid.displacement
            > state.max_latency_packets),
{
}

/// The arrival pattern is measured against the rate recovered from the source, and not
/// against any other: until there is one, or while it is not to be believed, no lead is.
pub proof fn law_the_lead_is_against_the_sources_own_rate(
    state: State,
    packet: Seq<u8>,
    now: Nanos,
)
    requires
        !state.stalled,
    ensures
        ({
            let after = state.noted(packet, now).arrivals;
            match state.media.recovered() {
                Some(rate) => after == state.arrivals.after(now, rate),
                None => after.peak == state.arrivals.peak && after.leads == state.arrivals.leads
                    && after.anchor == state.arrivals.anchor,
            }
        }),
{
}

/// The high-water mark is the most that was ever held.
pub proof fn law_the_high_water_mark_is_the_most_held(state: State)
    requires
        state.grid is None,
        state.buffer.len() + state.deferred.len() <= usize::MAX,
    ensures
        ({
            let held = state.buffer.len() + state.deferred.len();
            let mark = state.depth_noted().stats.buffer_high_water;
            &&& mark >= held
            &&& mark >= state.stats.buffer_high_water
            &&& mark == held || mark == state.stats.buffer_high_water
        }),
{
}

/// Under stream clocking a packet is taken on by the grid, which says what was dropped
/// for it and how far placement has strayed.
pub proof fn law_the_grid_says_what_was_dropped(state: State, packet: Seq<u8>, now: Nanos)
    requires
        state.grid is Some,
        state.latency is Fixed,
        (packet[1] as int % 32) * 256 + packet[2] != 0x1fff,
        state.stats.dropped_packets + state.grid->Some_0.push_drops(packet) <= u64::MAX,
    ensures
        ({
            let after = state.enqueued(packet, now);
            let grid = state.grid->Some_0;
            &&& after.grid == Some(grid.pushed(packet, now))
            &&& after.stats.dropped_packets == state.stats.dropped_packets + grid.push_drops(packet)
            &&& after.stats.pcr_position_overruns == grid.pushed(packet, now).overruns
            &&& after.stats.pcr_position_displacement == grid.pushed(packet, now).displacement
        }),
{
}

/// Under arrival clocking content goes out when its clock has come to it: no packet is
/// let go before it is owed, one is for each slot that finds more owed than let go, and
/// they go in the order they came.
pub proof fn law_content_is_let_go_when_owed(state: State, owed: u64)
    requires
        state.grid is None,
        state.media.released < u64::MAX,
    ensures
        ({
            let ready = state.admitted(state.media.released < owed);
            &&& ready.deferred + ready.buffer == state.deferred + state.buffer
            &&& state.media.released < owed && state.buffer.len() > 0 ==> ready.deferred.len()
                == state.deferred.len() + 1 && ready.media.released == state.media.released + 1
            &&& state.media.released >= owed || state.buffer.len() == 0 ==> ready.deferred
                == state.deferred && ready.media.released == state.media.released
        }),
{
    let ready = state.admitted(state.media.released < owed);
    assert(ready.deferred + ready.buffer =~= state.deferred + state.buffer);
}

/// A slot with nothing of its own to carry is stuffed: where no PCR is due and no content
/// is owed or waiting, a null packet goes out.
pub proof fn law_an_idle_slot_is_stuffed(state: State, owed: u64)
    requires
        state.grid is None,
        state.regen is None || state.last_pcr_index is None || state.pcr_pid is None,
        state.deferred.len() == 0,
        state.buffer.len() == 0 || state.media.released >= owed,
    ensures
        state.packet_out(owed, false) == crate::null_insertion::null_bytes(),
        carried(state, owed, false) is None,
{
}

/// A datagram is put together from the output moved up, credit counted up to the moment
/// at the rate that what waits in the buffer asks for, and the input looked at.
pub proof fn law_a_datagram_starts_from_the_moment(state: State, now: Nanos)
    requires
        state.grid is None,
    ensures
        ({
            let open = state.opened(now);
            &&& open.media == state.media.ticked_to(
                now,
                state.buffer.len() as usize,
                state.target,
            )
            &&& open.stalled == (state.source(now) is Stalled)
            &&& open.slot == state.slot
            &&& open.buffer == state.buffer
            &&& open.deferred == state.deferred
        }),
{
}

/// The measurement is read off as it stands.
pub proof fn law_the_measurement_is_read_off(state: State)
    requires
        state.media.pending_packets + state.media.frozen_packets <= u64::MAX,
    ensures
        ({
            let stats = state.snapshot();
            &&& stats.rate_decayed_packets == state.media.decayed_packets
            &&& stats.rate_decayed_secs == state.media.decayed_nanos
            &&& stats.rate_intervals == state.media.intervals
            &&& stats.rate_pcrs_seen == state.media.pcrs_seen
            &&& stats.rate_max_packets_in_interval == state.media.max_packets_in_interval
            &&& stats.rate_sub_ms_intervals == state.media.sub_ms_intervals
            &&& stats.rate_pending_packets == state.media.pending_packets
                + state.media.frozen_packets
            &&& stats.rate_clock_stalled <==> (state.media.pending_packets
                + state.media.frozen_packets) * 1_000_000_000 > 2 * state.media.fallback
        }),
{
    let waiting = state.media.pending_packets + state.media.frozen_packets;
    assert(waiting * 1_000_000_000 * 1_000_000_000 > state.media.fallback * 2_000_000_000
        <==> waiting * 1_000_000_000 > 2 * state.media.fallback);
}

/// What the arrival of a packet says of the input is acted on at once: where the cushion
/// is sized from arrival, it is the one that the lead asks for with that packet in it.
pub proof fn law_an_arrival_resizes_the_cushion(state: State, packet: Seq<u8>, now: Nanos)
    requires
        state.latency is Adaptive,
    ensures
        ({
            let after = state.noted(packet, now);
            after.target == after.latency.cushion(after.arrivals.lead()) && after.latency
                == state.latency
        }),
{
}

/// As a leg takes on stream before it has sent any, it stays a cushion back from the
/// newest packet placed, on a datagram boundary.
pub proof fn law_a_filling_leg_keeps_its_distance(state: State, packet: Seq<u8>, now: Nanos)
    requires
        state.wf(),
        state.latency is Fixed,
        state.stats.output_packets == 0,
        (packet[1] as int % 32) * 256 + packet[2] != 0x1fff,
        state.grid is Some,
        state.grid->Some_0.pushed(packet, now).placed.len() > 0,
    ensures
        ({
            let after = state.enqueued(packet, now);
            let placed = state.grid->Some_0.pushed(packet, now).placed;
            let per = state.per_datagram as int;
            let back = placed.last().0 - state.latency_packets;
            let start = if back >= placed.first().0 {
                back
            } else {
                placed.first().0 as int
            };
            &&& after.slot as int % per == 0
            &&& after.slot <= start < after.slot + per
            &&& after.anchor_slot == after.slot
            &&& after.anchor is Some
        }),
{
    let placed = state.grid->Some_0.pushed(packet, now).placed;
    let back = placed.last().0 - state.latency_packets;
    let start = if back >= placed.first().0 {
        back
    } else {
        placed.first().0 as int
    };
    lemma_boundary(start, state.per_datagram as int);
}

/// Taking content on keeps the high-water mark: it is never below what is then held.
pub proof fn law_taking_on_keeps_the_high_water_mark(state: State, packet: Seq<u8>, now: Nanos)
    requires
        state.wf(),
        state.grid is None,
        (packet[1] as int % 32) * 256 + packet[2] != 0x1fff,
        state.buffer.len() + state.deferred.len() < usize::MAX,
    ensures
        ({
            let after = state.enqueued(packet, now);
            &&& after.stats.buffer_high_water >= after.buffer.len() + after.deferred.len()
            &&& after.stats.buffer_high_water >= state.stats.buffer_high_water
            &&& after.stats.buffer_high_water == state.stats.buffer_high_water
                || after.stats.buffer_high_water == after.buffer.len() + after.deferred.len()
        }),
{
    let ready = state.noted(packet, now);
    assert(ready.grid is None && ready.deferred == state.deferred && ready.buffer == state.buffer);
    assert(ready.stats.buffer_high_water == state.stats.buffer_high_water);
    assert(ready.capacity >= 1);
}

/// A clock forced to start does so at once, and one that runs is left alone.
pub proof fn law_a_forced_start_is_at_once(state: State, now: Nanos)
    ensures
        state.anchor is None ==> state.forced(now).anchor == Some(now)
            && state.forced(now).media.anchor == Some(now),
        state.anchor is Some ==> state.forced(now) == state,
        state.forced(now).buffer == state.buffer,
        state.forced(now).slot == state.slot,
{
}

/// The end of the source leaves nothing waiting for a closing PCR: what the grid held
/// back is placed, and what did not fit is counted.
pub proof fn law_the_end_places_what_was_held_back(state: State)
    requires
        state.grid matches Some(grid) && grid.open is Some,
        state.stats.dropped_packets + state.grid->Some_0.closing_drops() <= u64::MAX,
    ensures
        ({
            let grid = state.grid->Some_0;
            let after = state.flushed();
            let left = grid.placed.len() + grid.run.len();
            &&& after.grid is Some
            &&& after.grid->Some_0.run.len() == 0
            &&& left <= grid.capacity ==> after.grid->Some_0.placed.len() == left
                && after.stats.dropped_packets == state.stats.dropped_packets
            &&& after.stats.dropped_packets == state.stats.dropped_packets + grid.closing_drops()
            &&& after.slot == state.slot
        }),
{
}

/// The share of stuffing is what was stuffed over what was sent.
pub proof fn law_the_share_of_stuffing(stats: crate::stats::Stats)
    ensures
        stats.stuffing().denominator >= 1,
        stats.stuffing().numerator * stats.output_packets == stats.null_packets
            * stats.stuffing().denominator || stats.output_packets == 0,
        stats.output_packets == 0 ==> stats.stuffing().numerator == 0,
{
}

/// Asking whether it is time starts nothing before there has been content, nor an output
/// with a pinned cushion, which starts by its timer; and it never moves a clock that runs.
pub proof fn law_asking_starts_nothing_early(state: State, now: Nanos)
    requires
        state.first_content_at is None || state.latency is Fixed || state.anchor is Some,
    ensures
        state.polled(now) == state,
{
}

} // verus!
