//! What holds of every run of the scheduler.

use vstd::prelude::*;

use crate::arith::{beyond, capped, in_millis, lasting, Nanos};
use crate::arrival::Arrivals;
use crate::media_clock::MediaClock;
use crate::null_insertion::{law_pcr_only_packet_carries_its_clock, null_bytes};
use crate::packet::{is_packet, pid_of};
use crate::pcr::{law_restamp_touches_only_the_clock, locked_pcr, pcr_of, PCR_WRAP_TICKS};
use crate::schedule::{time_for, State};
use crate::stats::Stats;
use crate::stream_grid::{
    law_placement_ignores_arrival_time, lemma_no_stuffing_comes, lemma_overdue_is_a_prefix,
    reads_plainly, timeless,
};

verus! {

// --- the byte clock -----------------------------------------------------------------

/// Every output slot is accounted for: a packet sent is one of content, stuffing or
/// an inserted PCR, and the position and the count move on by exactly one each.
pub proof fn law_every_slot_is_accounted_for(state: State, n: nat, due: u64, stalled: bool)
    requires
        state.slot + n <= u64::MAX,
        state.stats.output_packets + n <= u64::MAX,
        state.stats.content_packets + n <= u64::MAX,
        state.stats.null_packets + n <= u64::MAX,
        state.stats.pcr_inserted + n <= u64::MAX,
    ensures
        ({
            let after = state.packets_sent(n, due, stalled);
            &&& after.slot == state.slot + n
            &&& after.stats.output_packets == state.stats.output_packets + n
            &&& (after.stats.content_packets - state.stats.content_packets) + (
            after.stats.null_packets - state.stats.null_packets) + (after.stats.pcr_inserted
                - state.stats.pcr_inserted) == n
            &&& state.stats.content_packets <= after.stats.content_packets
            &&& state.stats.null_packets <= after.stats.null_packets
            &&& state.stats.pcr_inserted <= after.stats.pcr_inserted
        }),
    decreases n,
{
    if n > 0 {
        law_every_slot_is_accounted_for(state, (n - 1) as nat, due, stalled);
        lemma_one_slot(state.packets_sent((n - 1) as nat, due, stalled), due, stalled);
    }
}

/// What one slot does to the counters and to what identifies the output.
proof fn lemma_one_slot(state: State, due: u64, stalled: bool)
    ensures
        ({
            let after = state.packet_sent(due, stalled);
            let (a, b) = (after.stats, state.stats);
            &&& after.slot == capped(state.slot + 1)
            &&& a.output_packets == capped(b.output_packets + 1)
            &&& after.anchor == state.anchor
            &&& after.anchor_slot == state.anchor_slot
            &&& after.rate == state.rate
            &&& after.per_datagram == state.per_datagram
            &&& {
                ||| a.content_packets == capped(b.content_packets + 1) && a.null_packets
                    == b.null_packets && a.pcr_inserted == b.pcr_inserted
                ||| a.content_packets == b.content_packets && a.null_packets == capped(
                    b.null_packets + 1,
                ) && a.pcr_inserted == b.pcr_inserted
                ||| a.content_packets == b.content_packets && a.null_packets == b.null_packets
                    && a.pcr_inserted == capped(b.pcr_inserted + 1)
            }
        }),
{
}

/// The wire rate is exactly constant: however many packets have gone out, the next
/// datagram is due at the anchor plus the time that many packets take at the rate,
/// so no rounding accumulates.
pub proof fn law_wire_rate_is_constant(state: State, n: nat, due: u64, stalled: bool)
    requires
        state.anchor is Some,
        state.anchor_slot <= state.slot,
        state.slot + n <= u64::MAX,
    ensures
        state.packets_sent(n, due, stalled).due() == Some(
            lasting(
                state.anchor->Some_0 + time_for(
                    (state.slot + n - state.anchor_slot) as u64,
                    state.rate,
                ),
            ),
        ),
{
    lemma_clock_is_kept(state, n, due, stalled);
}

/// Sending packets leaves the anchor of the byte clock alone.
proof fn lemma_clock_is_kept(state: State, n: nat, due: u64, stalled: bool)
    requires
        state.slot + n <= u64::MAX,
    ensures
        ({
            let after = state.packets_sent(n, due, stalled);
            &&& after.anchor == state.anchor
            &&& after.anchor_slot == state.anchor_slot
            &&& after.rate == state.rate
            &&& after.slot == state.slot + n
        }),
    decreases n,
{
    if n > 0 {
        lemma_clock_is_kept(state, (n - 1) as nat, due, stalled);
        lemma_one_slot(state.packets_sent((n - 1) as nat, due, stalled), due, stalled);
    }
}

/// A muted slot holds the byte clock without emitting: the position moves on by a
/// whole datagram, the next one is due when it would have been, and nothing is
/// counted as sent.
pub proof fn law_muting_holds_the_byte_clock(state: State, now: Nanos)
    requires
        state.slot + state.per_datagram <= u64::MAX,
        state.stats.muted_packets + state.per_datagram <= u64::MAX,
        state.anchor is Some,
        state.anchor_slot <= state.slot,
    ensures
        state.muted(now).slot == state.slot + state.per_datagram,
        state.muted(now).stats.muted_packets == state.stats.muted_packets + state.per_datagram,
        state.muted(now).stats.output_packets == state.stats.output_packets,
        state.muted(now).due() == Some(
            lasting(
                state.anchor->Some_0 + time_for(
                    (state.slot + state.per_datagram - state.anchor_slot) as u64,
                    state.rate,
                ),
            ),
        ),
{
}

// --- what passes through --------------------------------------------------------------

/// Content passes through untouched but for its clock: no octet outside the PCR
/// field and the flags octet changes, and a packet without a PCR, or any packet
/// where source values are kept, goes out byte for byte as it came in.
pub proof fn law_content_passes_untouched(state: State, packet: Seq<u8>)
    requires
        state.wf(),
        is_packet(packet),
    ensures
        state.content_bytes(packet).len() == packet.len(),
        forall|i: int|
            0 <= i < packet.len() && !(5 <= i < 12) ==> #[trigger] state.content_bytes(packet)[i]
                == packet[i],
        pcr_of(packet) is None || state.regen is None ==> state.content_bytes(packet) == packet,
        pcr_of(packet) is Some ==> pcr_of(state.content_bytes(packet)) is Some,
        pid_of(state.content_bytes(packet)) == pid_of(packet),
{
    lemma_content_clock(state, packet);
}

/// The PCR that content goes out with, and what stays as it was.
pub proof fn lemma_content_clock(state: State, packet: Seq<u8>)
    requires
        state.sound(),
        is_packet(packet),
    ensures
        state.content_bytes(packet).len() == packet.len(),
        forall|i: int|
            0 <= i < packet.len() && !(5 <= i < 12) ==> #[trigger] state.content_bytes(packet)[i]
                == packet[i],
        pcr_of(packet) is None || state.regen is None ==> state.content_bytes(packet) == packet,
        pcr_of(packet) is Some && state.regen is Some ==> pcr_of(state.content_bytes(packet))
            == Some(
            match state.grid {
                Some(grid) => grid.map.pcr(state.slot),
                None => locked_pcr(
                    state.regen->Some_0.anchor_at(pcr_of(packet)->Some_0, state.slot),
                    state.rate,
                    state.slot,
                ),
            },
        ),
{
    if let (Some(regen), Some(src)) = (state.regen, pcr_of(packet)) {
        let w = PCR_WRAP_TICKS as int;
        match state.grid {
            Some(grid) => {
                let at = grid.map.pcr(state.slot);
                vstd::arithmetic::div_mod::lemma_mod_bound(
                    crate::slot::ticks_at(state.slot as int, state.rate as int),
                    w,
                );
                vstd::arithmetic::div_mod::lemma_small_mod(at as nat, PCR_WRAP_TICKS as nat);
                law_restamp_touches_only_the_clock(packet, at as int, regen.flag_next);
            },
            None => {
                let anchor = regen.anchor_at(src, state.slot);
                let at = locked_pcr(anchor, state.rate, state.slot);
                let behind = beyond(anchor.0, state.slot) as int;
                vstd::arithmetic::div_mod::lemma_mod_bound(
                    anchor.1 + crate::pcr::ticks_for(behind, state.rate as int),
                    w,
                );
                law_restamp_touches_only_the_clock(
                    packet,
                    at as int,
                    regen.rebases(src) || regen.flag_next,
                );
            },
        }
    }
}

/// Under arrival clocking content leaves in the order it came, and a PCR that takes
/// a slot defers it without losing any: after each slot what waits is what waited
/// before, less the packet that went out.
pub proof fn law_content_leaves_in_order(state: State, due: u64, stalled: bool)
    requires
        state.grid is None,
    ensures
        ({
            let waiting = state.deferred + state.buffer;
            let after = state.packet_sent(due, stalled);
            let left = after.deferred + after.buffer;
            &&& after.grid is None
            &&& if after.stats.content_packets == state.stats.content_packets
                && state.stats.content_packets < u64::MAX {
                left == waiting
            } else {
                state.stats.content_packets < u64::MAX ==> {
                    &&& waiting.len() > 0
                    &&& left == waiting.drop_first()
                    &&& state.packet_out(due, stalled) == state.admitted(
                        state.media.released < due,
                    ).content_bytes(waiting.first())
                }
            }
        }),
{
    let waiting = state.deferred + state.buffer;
    let ready = state.admitted(state.media.released < due);
    assert(ready.deferred + ready.buffer =~= waiting);
    let after = state.packet_sent(due, stalled);
    if ready.insertion(stalled) is None && ready.deferred.len() > 0 {
        assert(after.deferred + after.buffer =~= waiting.drop_first());
    } else {
        assert(after.deferred + after.buffer =~= waiting);
    }
}

/// Under arrival clocking content is accounted for as it comes in: each packet taken
/// on is one more waiting, or one more counted as dropped, and none is counted as
/// sent before it is.
pub proof fn law_content_taken_on_is_accounted_for(state: State, packet: Seq<u8>, now: Nanos)
    requires
        state.wf(),
        state.grid is None,
        pid_of(packet) != crate::null_insertion::NULL_PID,
        state.stats.dropped_packets < u64::MAX,
    ensures
        ({
            let after = state.enqueued(packet, now);
            let waiting = state.deferred + state.buffer;
            let left = after.deferred + after.buffer;
            &&& left.len() + after.stats.dropped_packets == waiting.len()
                + state.stats.dropped_packets + 1
            &&& left.last() == packet
            &&& after.stats.content_packets == state.stats.content_packets
        }),
{
}

// --- the clock that goes out ----------------------------------------------------------

/// The repetition limit is held: once a PCR has gone out, while the source is not
/// stalled, no slot passes without one that would leave more than the threshold
/// between two - whatever content wanted the slot, and however many slots pass.
pub proof fn law_pcr_repetition_is_held(state: State, n: nat, due: u64)
    requires
        state.wf(),
        state.regen is Some,
        state.pcr_pid is Some,
        state.last_pcr_index matches Some(last) && state.slot - last <= state.pcr_spacing,
        state.slot + n <= u64::MAX,
    ensures
        ({
            let after = state.packets_sent(n, due, false);
            &&& after.wf()
            &&& after.slot == state.slot + n
            &&& after.last_pcr_index is Some
            &&& after.slot - after.last_pcr_index->Some_0 <= state.pcr_spacing
            &&& after.pcr_spacing == state.pcr_spacing
            &&& after.regen is Some
            &&& after.pcr_pid is Some
        }),
    decreases n,
{
    if n > 0 {
        law_pcr_repetition_is_held(state, (n - 1) as nat, due);
        lemma_a_slot_keeps_the_state(state.packets_sent((n - 1) as nat, due, false), due, false);
    }
}

/// A slot sent leaves the state well formed.
pub proof fn lemma_a_slot_keeps_the_state(state: State, due: u64, stalled: bool)
    requires
        state.wf(),
    ensures
        state.packet_sent(due, stalled).wf(),
{
    let ready = state.admitted(state.media.released < due);
    if let Some(grid) = state.grid {
        lemma_overdue_is_a_prefix(grid.placed, state.slot);
        lemma_no_stuffing_comes(grid, Seq::empty(), 0, state.slot);
        assert(ready.grid->Some_0.wf());
    }
    assert(ready.wf());
}

/// No PCR is inserted while the source is stalled, or where source values are kept,
/// and never beside content that carries one of its own.
pub proof fn law_insertion_has_its_reasons(state: State, stalled: bool)
    ensures
        stalled ==> state.insertion(stalled) is None,
        state.regen is None ==> state.insertion(stalled) is None,
        state.deferred.len() > 0 && pcr_of(state.deferred.first()) is Some ==> state.insertion(
            stalled,
        ) is None,
        state.insertion(stalled) is Some ==> state.last_pcr_index is Some && beyond(
            state.last_pcr_index->Some_0,
            state.slot,
        ) >= state.pcr_spacing,
{
}

/// Under stream clocking an emitted PCR is the slot it sits in, whether it came with
/// content or was inserted.
pub proof fn law_emitted_pcr_is_the_slot_it_sits_in(state: State, due: u64, stalled: bool)
    requires
        state.wf(),
        state.grid is Some,
        state.regen is Some,
    ensures
        pcr_of(state.packet_out(due, stalled)) matches Some(pcr) ==> pcr
            == state.grid->Some_0.map.pcr(state.slot),
{
    let ready = state.admitted(state.media.released < due);
    let at = state.grid->Some_0.map.pcr(state.slot);
    assert(ready.grid->Some_0.map == state.grid->Some_0.map);
    assert(ready.slot == state.slot && ready.regen == state.regen && ready.rate == state.rate);
    match ready.insertion(stalled) {
        Some(pcr) => {
            vstd::arithmetic::div_mod::lemma_mod_bound(
                crate::slot::ticks_at(state.slot as int, state.rate as int),
                PCR_WRAP_TICKS as int,
            );
            law_pcr_only_packet_carries_its_clock(ready.pcr_pid->Some_0, ready.pcr_pid_cc, pcr);
        },
        None => {
            if ready.deferred.len() > 0 {
                let packet = ready.deferred.first();
                let regen = state.regen->Some_0;
                if pcr_of(packet) is Some {
                    vstd::arithmetic::div_mod::lemma_mod_bound(
                        crate::slot::ticks_at(state.slot as int, state.rate as int),
                        PCR_WRAP_TICKS as int,
                    );
                    vstd::arithmetic::div_mod::lemma_small_mod(
                        at as nat,
                        PCR_WRAP_TICKS as nat,
                    );
                    law_restamp_touches_only_the_clock(packet, at as int, regen.flag_next);
                }
            }
        },
    }
}

// --- a dead source ----------------------------------------------------------------------

/// A stream with no content in it claims no clock: past the stall timeout every
/// packet of a datagram is plain stuffing.
pub proof fn law_a_dead_source_claims_no_clock(state: State, now: Nanos, i: int)
    requires
        state.source(now) is Stalled,
        0 <= i < state.per_datagram,
    ensures
        state.datagram(now).len() == state.per_datagram * 188,
        state.datagram(now).subrange(i * 188, (i + 1) * 188) == null_bytes(),
{
    let open = state.opened(now);
    let due = open.media.owed(now);
    lemma_nothing_to_send(open, state.per_datagram as nat, due, i);
}

/// With nothing held and the source stalled, only stuffing goes out.
proof fn lemma_nothing_to_send(state: State, n: nat, due: u64, i: int)
    requires
        !state.pending(),
    ensures
        !state.packets_sent(n, due, true).pending(),
        state.packets_out(n, due, true).len() == n * 188,
        0 <= i < n ==> state.packets_out(n, due, true).subrange(i * 188, (i + 1) * 188)
            == null_bytes(),
    decreases n,
{
    if n > 0 {
        let before = state.packets_sent((n - 1) as nat, due, true);
        let sent = state.packets_out((n - 1) as nat, due, true);
        lemma_nothing_to_send(state, (n - 1) as nat, due, i);
        if let Some(grid) = before.grid {
            assert(grid.placed.skip(0) =~= grid.placed);
        }
        assert(before.packet_out(due, true) == null_bytes());
        let all = state.packets_out(n, due, true);
        if 0 <= i < n - 1 {
            assert(all.subrange(i * 188, (i + 1) * 188) =~= sent.subrange(
                i * 188,
                (i + 1) * 188,
            ));
        } else if i == n - 1 {
            assert(all.subrange(i * 188, (i + 1) * 188) =~= null_bytes());
        }
    }
}

/// Buffered media is programme going to air: a running output with content to send
/// is live, however long the input has been silent.
pub proof fn law_buffered_media_is_live(state: State, now: Nanos)
    requires
        state.pending(),
        state.last_content_at is Some,
        state.anchor matches Some(anchor) && anchor <= now,
    ensures
        state.source(now) is Live,
{
}

/// A stall is counted once, not once per output slot, for as long as it lasts.
pub proof fn law_a_stall_is_counted_once(state: State, now: Nanos, later: Nanos)
    requires
        state.source(now) is Stalled,
        state.observed(now).source(later) is Stalled,
    ensures
        state.observed(now).observed(later).stats.stalls == state.observed(now).stats.stalls,
        !state.stalled && state.stats.stalls < u64::MAX ==> state.observed(now).stats.stalls
            == state.stats.stalls + 1,
{
}

/// A silence that ends is kept at its length if it is the longest.
pub proof fn law_the_longest_gap_is_kept(state: State, packet: Seq<u8>, now: Nanos)
    requires
        state.last_content_at is Some,
        pid_of(packet) != crate::null_insertion::NULL_PID,
    ensures
        state.noted(packet, now).stats.content_gap_max_ms >= in_millis(state.silence(now)),
        state.noted(packet, now).stats.content_gap_max_ms >= state.stats.content_gap_max_ms,
{
}

/// Content returning from a stall re-primes the cushion: until a cushion's worth of
/// time has passed the media clock releases nothing, rather than dumping what
/// arrived at line rate.
pub proof fn law_resume_reprimes_the_cushion(
    state: State,
    packet: Seq<u8>,
    now: Nanos,
    later: Nanos,
)
    requires
        state.stalled,
        state.grid is None,
        state.anchor is Some,
        pid_of(packet) != crate::null_insertion::NULL_PID,
        later < lasting(now + state.target),
    ensures
        ({
            let after = state.enqueued(packet, now);
            &&& !after.stalled
            &&& after.media.released == 0
            &&& after.opened(later).media.owed(later) == 0
        }),
{
}

/// The first PCR after a resume says that the media timeline has a hole in it, and
/// does not move the regenerated clock.
pub proof fn law_resume_flags_the_next_pcr(state: State, now: Nanos)
    requires
        state.regen is Some,
    ensures
        state.resumed(now).regen is Some,
        state.resumed(now).regen->Some_0.flag_next,
        state.resumed(now).regen->Some_0.anchor == state.regen->Some_0.anchor,
        state.resumed(now).slot == state.slot,
        state.resumed(now).anchor == state.anchor,
{
}

// --- redundant pairs ----------------------------------------------------------------------

/// The part of a stream-clocked leg that decides what it puts on the wire. The rest
/// is when it started, how it is timed, and what it has counted.
pub open spec fn on_the_wire(state: State) -> State {
    State {
        grid: match state.grid {
            Some(grid) => Some(timeless(grid)),
            None => None,
        },
        arrivals: Arrivals::none(),
        media: MediaClock::fresh(0),
        target: 0,
        anchor: None,
        anchor_slot: 0,
        first_content_at: None,
        last_content_at: None,
        stalled: false,
        stats: Stats::zero(),
        ..state
    }
}

/// Under stream clocking when a packet arrives makes no difference to what a leg
/// holds for the wire: two legs alike take on the same packet alike, at whatever
/// time each receives it.
pub proof fn law_stream_input_ignores_arrival_time(
    one: State,
    other: State,
    packet: Seq<u8>,
    at: Nanos,
    later: Nanos,
)
    requires
        on_the_wire(one) == on_the_wire(other),
        one.grid matches Some(grid) && reads_plainly(grid, packet, at),
        other.grid matches Some(grid) && reads_plainly(grid, packet, later),
        one.latency is Fixed,
        one.stalled == other.stalled,
        one.stats.output_packets == 0 <==> other.stats.output_packets == 0,
    ensures
        on_the_wire(one.enqueued(packet, at)) == on_the_wire(other.enqueued(packet, later)),
{
    if pid_of(packet) != crate::null_insertion::NULL_PID {
        let a = one.grid->Some_0;
        let b = other.grid->Some_0;
        assert(other.grid is Some);
        assert(timeless(a) == timeless(b));
        law_placement_ignores_arrival_time(a, b, packet, at, later);
        let x = one.noted(packet, at);
        let y = other.noted(packet, later);
        assert(on_the_wire(x) == on_the_wire(y));
        assert(x.grid == Some(a) && y.grid == Some(b));
        let p = a.pushed(packet, at);
        let q = b.pushed(packet, later);
        assert(timeless(p) == timeless(q));
        assert(p.placed == q.placed);
    }
}

/// Under stream clocking what goes in a slot does not depend on when it is emitted:
/// two legs alike in what they hold for the wire send the same bytes, and are alike
/// afterwards, whatever their clocks say is due.
pub proof fn law_stream_output_ignores_the_emit_clock(
    one: State,
    other: State,
    n: nat,
    due: u64,
    other_due: u64,
    stalled: bool,
)
    requires
        on_the_wire(one) == on_the_wire(other),
        one.grid is Some,
    ensures
        one.packets_out(n, due, stalled) == other.packets_out(n, other_due, stalled),
        on_the_wire(one.packets_sent(n, due, stalled)) == on_the_wire(
            other.packets_sent(n, other_due, stalled),
        ),
        one.packets_sent(n, due, stalled).grid is Some,
    decreases n,
{
    if n > 0 {
        law_stream_output_ignores_the_emit_clock(
            one,
            other,
            (n - 1) as nat,
            due,
            other_due,
            stalled,
        );
        lemma_one_stream_slot(
            one.packets_sent((n - 1) as nat, due, stalled),
            other.packets_sent((n - 1) as nat, other_due, stalled),
            due,
            other_due,
            stalled,
        );
    }
}

/// One slot of two legs that hold the same for the wire.
proof fn lemma_one_stream_slot(one: State, other: State, due: u64, other_due: u64, stalled: bool)
    requires
        on_the_wire(one) == on_the_wire(other),
        one.grid is Some,
    ensures
        one.packet_out(due, stalled) == other.packet_out(other_due, stalled),
        on_the_wire(one.packet_sent(due, stalled)) == on_the_wire(
            other.packet_sent(other_due, stalled),
        ),
        one.packet_sent(due, stalled).grid is Some,
{
    let a = one.grid->Some_0;
    let b = other.grid->Some_0;
    assert(other.grid is Some);
    assert(timeless(a) == timeless(b));
    assert(a.placed == b.placed && a.map == b.map);
    let x = one.admitted(one.media.released < due);
    let y = other.admitted(other.media.released < other_due);
    assert(timeless(a.taken(one.slot)) == timeless(b.taken(other.slot)));
    assert(on_the_wire(x) == on_the_wire(y));
    assert(x.insertion(stalled) == y.insertion(stalled));
}

/// A sequence seed offsets the numbering of a pair as a whole and changes nothing
/// else about where a datagram sits.
pub proof fn law_a_seed_offsets_the_numbering(state: State, seed: u16)
    requires
        state.grid is Some,
        state.sequence_seed == 0,
    ensures
        ({
            let plain = state.framing()->Some_0;
            let seeded = (State { sequence_seed: seed, ..state }).framing()->Some_0;
            &&& seeded.slot == plain.slot
            &&& seeded.timestamp_90khz == plain.timestamp_90khz
            &&& seeded.sequence == (plain.sequence + seed) % 0x1_0000
        }),
{
}

/// Numbering counts stream position, not sends: a datagram muted moves it on by one
/// just as a datagram sent does.
pub proof fn law_muting_keeps_the_numbering(state: State, now: Nanos)
    requires
        state.wf(),
        state.grid is Some,
        state.slot + state.per_datagram <= u64::MAX,
    ensures
        state.muted(now).framing()->Some_0.sequence == (state.framing()->Some_0.sequence + 1)
            % 0x1_0000,
{
    let after = state.muted(now);
    assert(after.slot == state.slot + state.per_datagram);
    assert(after.grid == state.grid && after.sequence_seed == state.sequence_seed);
    assert(after.per_datagram == state.per_datagram);
    lemma_next_number(state.slot as int, state.per_datagram as int, state.sequence_seed as int);
}

/// One datagram further on is one number further on.
proof fn lemma_next_number(slot: int, per: int, seed: int)
    requires
        per > 0,
        slot >= 0,
        seed >= 0,
    ensures
        ((slot + per) / per + seed) % 0x1_0000 == ((slot / per + seed) % 0x1_0000 + 1) % 0x1_0000,
        slot / per >= 0,
{
    vstd::arithmetic::div_mod::lemma_div_plus_one(slot, per);
    vstd::arithmetic::div_mod::lemma_div_pos_is_pos(slot, per);
}

/// A stream-clocked output always stands on a datagram boundary of the grid, so two
/// legs cut their datagrams in the same places.
pub proof fn law_phase_is_on_a_datagram_boundary(state: State, now: Nanos)
    requires
        state.wf(),
        state.slot as int % state.per_datagram as int == 0,
    ensures
        state.phased(now).slot as int % state.per_datagram as int == 0,
        state.caught_up(now).slot as int % state.per_datagram as int == 0,
{
    let per = state.per_datagram as int;
    if let Some(grid) = state.grid {
        if grid.placed.len() > 0 {
            let edge = grid.placed.last().0;
            let first = grid.placed.first().0;
            let back = beyond(state.latency_packets, edge);
            let start = crate::arith::larger(back, first);
            lemma_floor_is_a_multiple(back, state.per_datagram as u64);
            lemma_floor_is_a_multiple(start, state.per_datagram as u64);
        }
    }
}

/// Rounding down to a step lands on a multiple of it, not above where it began.
proof fn lemma_floor_is_a_multiple(x: u64, step: u64)
    requires
        step > 0,
    ensures
        crate::arith::floor_to(x, step) as int % step as int == 0,
        crate::arith::floor_to(x, step) <= x,
{
    vstd::arithmetic::div_mod::lemma_fundamental_div_mod(x as int, step as int);
    vstd::arithmetic::div_mod::lemma_mod_bound(x as int, step as int);
    assert((x / step) * step == step * (x / step)) by (nonlinear_arith);
    crate::arith::lemma_exact_division((x / step) as int, step as int);
}

/// A leg never runs further behind the stream than its buffer may be deep: where it
/// holds more, the output moves to the live edge.
pub proof fn law_output_stays_at_the_live_edge(state: State, now: Nanos)
    requires
        state.wf(),
        state.grid matches Some(grid) && grid.placed.len() > 0,
        state.latency_packets + state.per_datagram <= state.max_latency_packets,
    ensures
        beyond(state.caught_up(now).slot, state.grid->Some_0.placed.last().0)
            <= state.max_latency_packets,
{
    let edge = state.grid->Some_0.placed.last().0;
    let back = beyond(state.latency_packets, edge);
    let per = state.per_datagram as u64;
    lemma_floor_is_a_multiple(back, per);
    vstd::arithmetic::div_mod::lemma_fundamental_div_mod(back as int, per as int);
    vstd::arithmetic::div_mod::lemma_mod_bound(back as int, per as int);
    assert((back / per) * per == per * (back / per)) by (nonlinear_arith);
}

/// Moving to the live edge is done once: a datagram emitted after it is the one that
/// would have been emitted without, and stands in the slot the output was moved to.
pub proof fn law_catching_up_is_done_once(state: State, now: Nanos)
    ensures
        state.caught_up(now).caught_up(now) == state.caught_up(now),
        state.caught_up(now).emitted(now) == state.emitted(now),
        state.caught_up(now).datagram(now) == state.datagram(now),
        state.opened(now).slot == state.caught_up(now).slot,
{
    assert(state.caught_up(now).caught_up(now) =~= state.caught_up(now));
}

/// The depths only ever grow: neither bound on what may be held falls when the
/// cushion is sized anew, so a revised estimate evicts nothing.
pub proof fn law_bounds_only_rise(state: State)
    ensures
        state.resized().capacity >= state.capacity,
        state.resized().max_latency_packets >= state.max_latency_packets,
        state.resized().buffer == state.buffer,
        state.latency is Fixed ==> state.resized() == state,
{
}

} // verus!
