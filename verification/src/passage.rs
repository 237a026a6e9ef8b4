//! How content passes through, whatever is done to its clock on the way.

use vstd::prelude::*;

use crate::account::{
    after_call, after_calls, content_of, lemma_calls_count_on, sent_by, slots_of, slots_out,
    taken_on, Call,
};
use crate::arith::Nanos;
use crate::config::Config;
use crate::null_insertion::{null_bytes, pcr_only_bytes, NULL_PID};
use crate::packet::pid_of;
use crate::schedule::State;
use crate::stream_grid::{overdue, Placement};
use crate::whole_run::{
    arrived_over, calls_over, fresh_run, lemma_run_is_its_calls, over, run_over, sent_over,
    Happening,
};

verus! {

/// The packet of content that goes out in a slot, as it came in, or none where the slot
/// carries an inserted PCR or stuffing.
pub open spec fn carried(state: State, due: u64, stalled: bool) -> Option<Seq<u8>> {
    let ready = state.admitted(state.media.released < due);
    if ready.insertion(stalled) is None && ready.deferred.len() > 0 {
        Some(ready.deferred.first())
    } else {
        None
    }
}

/// The same of `n` slots.
pub open spec fn carried_in(state: State, n: nat, due: u64, stalled: bool) -> Seq<Option<Seq<u8>>>
    decreases n,
{
    if n == 0 {
        Seq::empty()
    } else {
        carried_in(state, (n - 1) as nat, due, stalled).push(
            carried(state.packets_sent((n - 1) as nat, due, stalled), due, stalled),
        )
    }
}

/// The same of the slots that `calls` send.
pub open spec fn carried_by(state: State, calls: Seq<Call>) -> Seq<Option<Seq<u8>>>
    decreases calls.len(),
{
    if calls.len() == 0 {
        Seq::empty()
    } else {
        let before = after_calls(state, calls.drop_last());
        let earlier = carried_by(state, calls.drop_last());
        match calls.last() {
            Call::EmitDatagram(now) => {
                let open = before.opened(now);
                earlier + carried_in(
                    open,
                    before.per_datagram as nat,
                    open.media.owed(now),
                    open.stalled,
                )
            },
            _ => earlier,
        }
    }
}

/// The packets among `slots`.
pub open spec fn packets_among(slots: Seq<Option<Seq<u8>>>) -> Seq<Seq<u8>>
    decreases slots.len(),
{
    if slots.len() == 0 {
        Seq::empty()
    } else {
        match slots.last() {
            Some(packet) => packets_among(slots.drop_last()).push(packet),
            None => packets_among(slots.drop_last()),
        }
    }
}

/// Whether `out` is `packet` with nothing changed outside the PCR field and the flags
/// octet before it.
pub open spec fn same_but_clock(out: Seq<u8>, packet: Seq<u8>) -> bool {
    &&& out.len() == packet.len()
    &&& forall|i: int| 0 <= i < packet.len() && !(5 <= i < 12) ==> #[trigger] out[i] == packet[i]
}

/// Whether `out` is an inserted PCR.
pub open spec fn is_inserted(out: Seq<u8>) -> bool {
    exists|pid: u16, cc: u8, ticks: int| out == #[trigger] pcr_only_bytes(pid, cc, ticks)
}

/// Whether `sent` is what `slots` carry, slot by slot: content with nothing but its clock
/// changed, and stuffing or an inserted PCR where there is none.
pub open spec fn carries(sent: Seq<Seq<u8>>, slots: Seq<Option<Seq<u8>>>) -> bool {
    &&& sent.len() == slots.len()
    &&& forall|i: int| 0 <= i < sent.len() ==> fills(#[trigger] sent[i], slots[i])
}

/// Whether `out` is what goes out for `slot`.
pub open spec fn fills(out: Seq<u8>, slot: Option<Seq<u8>>) -> bool {
    match slot {
        Some(packet) => same_but_clock(out, packet),
        None => out == null_bytes() || is_inserted(out),
    }
}

/// What is placed on a grid, in the order of its slots.
pub open spec fn contents(placed: Seq<(u64, Seq<u8>)>) -> Seq<Seq<u8>> {
    placed.map_values(|e: (u64, Seq<u8>)| e.1)
}

/// Everything in hand, the next to go out first.
pub open spec fn in_line(state: State) -> Seq<Seq<u8>> {
    state.deferred + match state.grid {
        Some(grid) => contents(grid.placed) + grid.run,
        None => state.buffer,
    }
}

/// Whether nothing has been lost between two states.
pub open spec fn lost_nothing(before: State, after: State) -> bool {
    &&& after.stats.dropped_packets == before.stats.dropped_packets < u64::MAX
    &&& after.stats.late_drops == before.stats.late_drops < u64::MAX
}

/// Room in every buffer.
spec fn roomy(state: State) -> bool {
    &&& state.capacity >= 1
    &&& state.grid matches Some(grid) ==> grid.capacity >= 1 && (grid.open is None ==> grid.run.len()
        == 0)
}

/// What a slot sends is what was next in line.
#[verifier::spinoff_prover]
#[verifier::rlimit(30)]
proof fn lemma_slot_passes(state: State, due: u64, stalled: bool)
    requires
        roomy(state),
        state.packet_sent(due, stalled).stats.late_drops == state.stats.late_drops < u64::MAX,
    ensures
        ({
            let after = state.packet_sent(due, stalled);
            &&& roomy(after)
            &&& after.stats.dropped_packets == state.stats.dropped_packets
            &&& fills(state.packet_out(due, stalled), carried(state, due, stalled))
            &&& match carried(state, due, stalled) {
                Some(packet) => seq![packet] + in_line(after) == in_line(state),
                None => in_line(after) == in_line(state),
            }
        }),
{
    let ready = state.admitted(state.media.released < due);
    let after = state.packet_sent(due, stalled);
    let out = state.packet_out(due, stalled);
    if let Some(grid) = state.grid {
        assert(overdue(grid.placed, state.slot) == 0);
        assert(grid.placed.skip(0) =~= grid.placed);
        if let Some(packet) = grid.due_at(state.slot) {
            assert(contents(grid.placed) =~= seq![packet] + contents(grid.placed.drop_first()));
        }
    }
    assert(in_line(ready) =~= in_line(state));
    match ready.insertion(stalled) {
        Some(pcr) => {
            assert(out == pcr_only_bytes(ready.pcr_pid->Some_0, ready.pcr_pid_cc, pcr as int));
            assert(is_inserted(out));
        },
        None => {
            if ready.deferred.len() > 0 {
                let packet = ready.deferred.first();
                assert(same_but_clock(ready.content_bytes(packet), packet));
                assert(seq![packet] + in_line(after) =~= in_line(ready));
            }
        },
    }
}

/// The same of `n` slots.
#[verifier::spinoff_prover]
proof fn lemma_slots_pass(state: State, n: nat, due: u64, stalled: bool)
    requires
        roomy(state),
        state.packets_sent(n, due, stalled).stats.late_drops == state.stats.late_drops < u64::MAX,
    ensures
        ({
            let after = state.packets_sent(n, due, stalled);
            let slots = carried_in(state, n, due, stalled);
            &&& roomy(after)
            &&& after.stats.dropped_packets == state.stats.dropped_packets
            &&& carries(slots_out(state, n, due, stalled), slots)
            &&& packets_among(slots) + in_line(after) == in_line(state)
        }),
    decreases n,
{
    let after = state.packets_sent(n, due, stalled);
    let slots = carried_in(state, n, due, stalled);
    if n == 0 {
        assert(packets_among(slots) + in_line(after) =~= in_line(state));
    } else {
        let p = (n - 1) as nat;
        let before = state.packets_sent(p, due, stalled);
        lemma_late_counts_on(state, p, due, stalled);
        lemma_late_in_a_slot(before, due, stalled);
        lemma_slots_pass(state, p, due, stalled);
        lemma_slot_passes(before, due, stalled);
        lemma_line_goes_on(
            carried_in(state, p, due, stalled),
            slots_out(state, p, due, stalled),
            carried(before, due, stalled),
            before.packet_out(due, stalled),
            in_line(before),
            in_line(after),
        );
    }
}

/// One more slot.
proof fn lemma_line_goes_on(
    slots: Seq<Option<Seq<u8>>>,
    sent: Seq<Seq<u8>>,
    slot: Option<Seq<u8>>,
    out: Seq<u8>,
    before: Seq<Seq<u8>>,
    after: Seq<Seq<u8>>,
)
    requires
        carries(sent, slots),
        fills(out, slot),
        match slot {
            Some(packet) => seq![packet] + after == before,
            None => after == before,
        },
    ensures
        carries(sent.push(out), slots.push(slot)),
        packets_among(slots.push(slot)) + after == packets_among(slots) + before,
{
    assert(slots.push(slot).drop_last() =~= slots);
    assert(packets_among(slots.push(slot)) + after =~= packets_among(slots) + before);
    let (more, longer) = (sent.push(out), slots.push(slot));
    assert forall|i: int| 0 <= i < more.len() implies fills(#[trigger] more[i], longer[i]) by {
        if i < sent.len() {
            assert(more[i] == sent[i] && longer[i] == slots[i]);
        }
    }
}

/// A slot counts late packets, if any.
proof fn lemma_late_in_a_slot(state: State, due: u64, stalled: bool)
    ensures
        state.stats.late_drops <= state.packet_sent(due, stalled).stats.late_drops,
{
}

/// Late packets are never uncounted.
proof fn lemma_late_counts_on(state: State, n: nat, due: u64, stalled: bool)
    ensures
        state.stats.late_drops <= state.packets_sent(n, due, stalled).stats.late_drops,
    decreases n,
{
    if n > 0 {
        lemma_late_counts_on(state, (n - 1) as nat, due, stalled);
    }
}

/// A run placed on the grid is still the run.
proof fn lemma_placed_in_order(grid: Placement, at: u64)
    requires
        grid.open is Some,
        grid.placed.len() + grid.run.len() <= grid.capacity,
    ensures
        contents(grid.closed(at).placed) + grid.closed(at).run == contents(grid.placed) + grid.run,
        grid.run.len() > 0 ==> grid.closed(at).run.len() == 0,
        grid.closed(at).capacity == grid.capacity,
        grid.closed(at).open == grid.open,
{
    let after = grid.closed(at);
    if grid.run.len() > 0 {
        assert(contents(after.placed) =~= contents(grid.placed) + grid.run);
        assert(contents(after.placed) + after.run =~= contents(grid.placed) + grid.run);
    }
}

/// A packet taken on joins the end of what a grid holds.
#[verifier::spinoff_prover]
proof fn lemma_push_in_order(grid: Placement, packet: Seq<u8>, now: Nanos)
    requires
        grid.push_drops(packet) == 0,
        grid.open is None ==> grid.run.len() == 0,
        grid.placed.len() + grid.run.len() <= u64::MAX + grid.capacity,
    ensures
        ({
            let after = grid.pushed(packet, now);
            &&& contents(after.placed) + after.run == (contents(grid.placed) + grid.run).push(packet)
            &&& after.open is Some
            &&& after.capacity == grid.capacity
        }),
{
    let after = grid.pushed(packet, now);
    match crate::pcr::pcr_of(packet) {
        None => {
            assert(contents(after.placed) + after.run =~= (contents(grid.placed) + grid.run).push(
                packet,
            ));
        },
        Some(pcr) => {
            let landing = grid.landing(pcr, grid.quiet(now));
            let moved = Placement { epoch: landing.epoch, ..grid };
            if grid.open is Some {
                lemma_placed_in_order(moved, landing.slot);
                lemma_placed_in_order(moved, moved.flush_end());
            }
            let ended = grid.ended(landing);
            assert(contents(ended.placed) + ended.run == contents(grid.placed) + grid.run);
            assert(ended.run.len() == 0);
            assert(contents(ended.placed) + ended.run =~= contents(ended.placed));
            assert(contents(after.placed) + after.run =~= (contents(grid.placed) + grid.run).push(
                packet,
            ));
        },
    }
}

/// What one call does to the line.
#[verifier::spinoff_prover]
#[verifier::rlimit(40)]
proof fn lemma_call_passes(state: State, call: Call)
    requires
        roomy(state),
        lost_nothing(state, after_call(state, call)),
        in_line(state).len() <= u64::MAX,
    ensures
        ({
            let after = after_call(state, call);
            &&& roomy(after)
            &&& match call {
                Call::EmitDatagram(now) => {
                    let open = state.opened(now);
                    let slots = carried_in(
                        open,
                        state.per_datagram as nat,
                        open.media.owed(now),
                        open.stalled,
                    );
                    &&& carries(slots_of(state, now), slots)
                    &&& packets_among(slots) + in_line(after) == in_line(state)
                },
                Call::Enqueue(packet, _) if pid_of(packet) != NULL_PID => in_line(after)
                    == in_line(state).push(packet),
                _ => in_line(after) == in_line(state),
            }
        }),
{
    reveal(after_call);
    match call {
        Call::Enqueue(packet, now) => {
            if pid_of(packet) != NULL_PID {
                lemma_enqueue_passes(state, packet, now);
            }
        },
        Call::Flush => {
            if let Some(grid) = state.grid {
                if grid.open is Some {
                    assert(grid.closing_drops() == 0);
                    lemma_placed_in_order(grid, grid.flush_end());
                    assert(in_line(state.flushed()) =~= in_line(state));
                }
            }
        },
        Call::EmitDatagram(now) => {
            let open = state.opened(now);
            lemma_late_counts_on(
                open,
                state.per_datagram as nat,
                open.media.owed(now),
                open.stalled,
            );
            assert(state.stats.late_drops <= open.stats.late_drops);
            lemma_catching_up_passes(state, now);
            assert(roomy(open) && in_line(open) == in_line(state));
            lemma_slots_pass(
                open,
                state.per_datagram as nat,
                open.media.owed(now),
                open.stalled,
            );
        },
        Call::CatchUp(now) => {
            lemma_catching_up_passes(state, now);
        },
        _ => {},
    }
}

/// Catching up without losing anything moves nothing.
proof fn lemma_catching_up_passes(state: State, now: Nanos)
    requires
        roomy(state),
        state.caught_up(now).stats.late_drops == state.stats.late_drops < u64::MAX,
    ensures
        roomy(state.caught_up(now)),
        in_line(state.caught_up(now)) == in_line(state),
        state.caught_up(now).stats.dropped_packets == state.stats.dropped_packets,
{
    if state.caught_up(now) != state {
        assert(state.deferred.len() == 0);
        assert(in_line(state.caught_up(now)) =~= in_line(state));
    }
}

/// A packet of content taken on.
#[verifier::spinoff_prover]
#[verifier::rlimit(40)]
proof fn lemma_enqueue_passes(state: State, packet: Seq<u8>, now: Nanos)
    requires
        roomy(state),
        lost_nothing(state, state.enqueued(packet, now)),
        pid_of(packet) != NULL_PID,
        in_line(state).len() <= u64::MAX,
    ensures
        roomy(state.enqueued(packet, now)),
        in_line(state.enqueued(packet, now)) == in_line(state).push(packet),
{
    let ready = state.noted(packet, now);
    let after = state.enqueued(packet, now);
    assert(roomy(ready));
    assert(in_line(ready) == in_line(state));
    assert(ready.stats.dropped_packets == state.stats.dropped_packets);
    match ready.grid {
        Some(grid) => {
            assert(after.grid == Some(grid.pushed(packet, now)));
            assert(grid.push_drops(packet) == 0);
            lemma_push_in_order(grid, packet, now);
            assert(in_line(after) =~= in_line(state).push(packet));
        },
        None => {
            assert(after.buffer == ready.buffer.push(packet));
            assert(in_line(after) =~= in_line(state).push(packet));
        },
    }
}

/// The line over any calls.
#[verifier::spinoff_prover]
proof fn lemma_calls_pass(state: State, calls: Seq<Call>)
    requires
        roomy(state),
        lost_nothing(state, after_calls(state, calls)),
        in_line(state).len() + taken_on(calls).len() <= u64::MAX,
    ensures
        ({
            let after = after_calls(state, calls);
            let slots = carried_by(state, calls);
            &&& roomy(after)
            &&& carries(sent_by(state, calls), slots)
            &&& packets_among(slots) + in_line(after) == in_line(state) + taken_on(calls)
        }),
    decreases calls.len(),
{
    let after = after_calls(state, calls);
    let slots = carried_by(state, calls);
    if calls.len() == 0 {
        assert(packets_among(slots) + in_line(after) =~= in_line(state) + taken_on(calls));
    } else {
        let earlier = calls.drop_last();
        let before = after_calls(state, earlier);
        let call = calls.last();
        lemma_calls_count_on(before, call);
        lemma_losses_count_on(state, earlier);
        lemma_calls_pass(state, earlier);
        let was = carried_by(state, earlier);
        assert(in_line(before).len() <= in_line(state).len() + taken_on(earlier).len()) by {
            assert((packets_among(was) + in_line(before)).len() == packets_among(was).len()
                + in_line(before).len());
        }
        lemma_call_passes(before, call);
        match call {
            Call::EmitDatagram(now) => {
                let open = before.opened(now);
                let more = carried_in(
                    open,
                    before.per_datagram as nat,
                    open.media.owed(now),
                    open.stalled,
                );
                lemma_among_both(was, more);
                assert(packets_among(slots) + in_line(after) =~= packets_among(was) + (
                packets_among(more) + in_line(after)));
                let (sent, out) = (sent_by(state, earlier), slots_of(before, now));
                assert forall|i: int| 0 <= i < (sent + out).len() implies fills(
                    #[trigger] (sent + out)[i],
                    (was + more)[i],
                ) by {
                    if i < sent.len() {
                        assert((sent + out)[i] == sent[i] && (was + more)[i] == was[i]);
                    } else {
                        assert((sent + out)[i] == out[i - sent.len()]);
                        assert((was + more)[i] == more[i - sent.len()]);
                    }
                }
            },
            Call::Enqueue(packet, _) => {
                if pid_of(packet) != NULL_PID {
                    assert(packets_among(slots) + in_line(after) =~= (packets_among(was) + in_line(
                        before,
                    )).push(packet));
                    assert(in_line(state) + taken_on(calls) =~= (in_line(state) + taken_on(
                        earlier,
                    )).push(packet));
                }
            },
            _ => {},
        }
    }
}

/// Packets in two rows of slots are those of the one and then of the other.
proof fn lemma_among_both(one: Seq<Option<Seq<u8>>>, other: Seq<Option<Seq<u8>>>)
    ensures
        packets_among(one + other) == packets_among(one) + packets_among(other),
    decreases other.len(),
{
    if other.len() == 0 {
        assert(one + other =~= one);
        assert(packets_among(one) + packets_among(other) =~= packets_among(one));
    } else {
        lemma_among_both(one, other.drop_last());
        assert((one + other).drop_last() =~= one + other.drop_last());
        assert(packets_among(one + other) =~= packets_among(one) + packets_among(other));
    }
}

/// Losses are never uncounted.
proof fn lemma_losses_count_on(state: State, calls: Seq<Call>)
    ensures
        state.stats.dropped_packets <= after_calls(state, calls).stats.dropped_packets,
        state.stats.late_drops <= after_calls(state, calls).stats.late_drops,
    decreases calls.len(),
{
    if calls.len() > 0 {
        lemma_losses_count_on(state, calls.drop_last());
        lemma_calls_count_on(after_calls(state, calls.drop_last()), calls.last());
    }
}

/// Content passes through in order with nothing but its clock changed: in either mode of
/// handling the PCR and under either clocking, as long as nothing has been dropped or
/// come too late, the content that a new scheduler has sent, followed by what it still
/// has in hand, is the content it was given - none of it lost, doubled or overtaken -
/// each packet went out as it came in outside the PCR field and the flags octet, and
/// everything else that went out is stuffing or an inserted PCR.
pub proof fn law_content_keeps_its_order_and_payload(config: Config, calls: Seq<Call>)
    requires
        after_calls(State::initial(config), calls).stats.dropped_packets == 0,
        after_calls(State::initial(config), calls).stats.late_drops == 0,
        taken_on(calls).len() <= u64::MAX,
    ensures
        ({
            let new = State::initial(config);
            let slots = carried_by(new, calls);
            &&& carries(sent_by(new, calls), slots)
            &&& packets_among(slots) + in_line(after_calls(new, calls)) == taken_on(calls)
        }),
{
    let new = State::initial(config);
    assert(in_line(new) =~= Seq::<Seq<u8>>::empty());
    lemma_calls_pass(new, calls);
    assert(in_line(new) + taken_on(calls) =~= taken_on(calls));
}

/// A whole run carries what arrived: once it is over, with nothing dropped or late, the
/// content that it sent is the content that arrived, in the same order and none lost,
/// each packet equal outside the PCR field and the flags octet. Under stream clocking
/// that is so of a run whose input did not go on after its end.
pub proof fn law_a_whole_run_carries_what_arrived(
    config: Config,
    start: Nanos,
    happenings: Seq<Happening>,
)
    requires
        over(run_over(fresh_run(config, start), happenings)),
        run_over(fresh_run(config, start), happenings).state.stats.dropped_packets == 0,
        run_over(fresh_run(config, start), happenings).state.stats.late_drops == 0,
        run_over(fresh_run(config, start), happenings).state.grid matches Some(grid)
            ==> grid.run.len() == 0,
        content_of(arrived_over(happenings)).len() <= u64::MAX,
    ensures
        ({
            let run = fresh_run(config, start);
            let slots = carried_by(run.state, calls_over(run, happenings));
            &&& carries(sent_over(run, happenings), slots)
            &&& packets_among(slots) == content_of(arrived_over(happenings))
        }),
{
    let run = fresh_run(config, start);
    let calls = calls_over(run, happenings);
    let after = run_over(run, happenings).state;
    lemma_run_is_its_calls(run, happenings);
    law_content_keeps_its_order_and_payload(config, calls);
    assert(in_line(after) =~= Seq::<Seq<u8>>::empty());
    let slots = carried_by(run.state, calls);
    assert(packets_among(slots) + in_line(after) =~= packets_among(slots));
}

} // verus!
