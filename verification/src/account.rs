//! What holds after any sequence of calls on a scheduler: every packet is accounted
//! for, coming in and going out.

use vstd::prelude::*;

use crate::arith::Nanos;
use crate::config::Config;
use crate::laws::{lemma_a_slot_keeps_the_state, lemma_content_clock};
use crate::media_clock::RateSample;
use crate::null_insertion::{is_content, null_bytes, NULL_PID};
use crate::packet::{is_packet, pid_of};
use crate::pcr::TS_PACKET_SIZE;
use crate::schedule::State;
use crate::stream_grid::{lemma_no_stuffing_comes, lemma_overdue_is_a_prefix, Placement};

verus! {

/// A call on a scheduler that can change it.
pub enum Call {
    /// A packet is enqueued.
    Enqueue(Seq<u8>, Nanos),
    /// A rate sample is folded in.
    FoldRate(RateSample, u64),
    /// An unstarted clock may start.
    PollStart(Nanos),
    /// An unstarted clock starts.
    StartNow(Nanos),
    /// What waits for a closing PCR is placed.
    Flush,
    /// The output moves to the live edge if it has fallen behind.
    CatchUp(Nanos),
    /// A datagram's slots are skipped.
    AdvanceMuted(Nanos),
    /// A datagram is emitted.
    EmitDatagram(Nanos),
}

/// The state after a call.
#[verifier::opaque]
pub open spec fn after_call(state: State, call: Call) -> State {
    match call {
        Call::Enqueue(packet, now) => state.enqueued(packet, now),
        Call::FoldRate(sample, decay) => State {
            media: state.media.folded(sample, decay),
            ..state
        },
        Call::PollStart(now) => state.polled(now),
        Call::StartNow(now) => state.forced(now),
        Call::Flush => state.flushed(),
        Call::CatchUp(now) => state.caught_up(now),
        Call::AdvanceMuted(now) => state.muted(now),
        Call::EmitDatagram(now) => state.emitted(now),
    }
}

/// The state after `calls`.
pub open spec fn after_calls(state: State, calls: Seq<Call>) -> State
    decreases calls.len(),
{
    if calls.len() == 0 {
        state
    } else {
        after_call(after_calls(state, calls.drop_last()), calls.last())
    }
}

/// The content that `calls` enqueue, in order.
pub open spec fn taken_on(calls: Seq<Call>) -> Seq<Seq<u8>>
    decreases calls.len(),
{
    if calls.len() == 0 {
        Seq::empty()
    } else {
        match calls.last() {
            Call::Enqueue(packet, _) if pid_of(packet) != NULL_PID => taken_on(
                calls.drop_last(),
            ).push(packet),
            _ => taken_on(calls.drop_last()),
        }
    }
}

/// How many packets of stuffing `calls` enqueue.
pub open spec fn stuffing_taken_on(calls: Seq<Call>) -> nat
    decreases calls.len(),
{
    if calls.len() == 0 {
        0
    } else {
        stuffing_taken_on(calls.drop_last()) + match calls.last() {
            Call::Enqueue(packet, _) if pid_of(packet) == NULL_PID => 1nat,
            _ => 0nat,
        }
    }
}

/// The packets of `n` slots, one by one.
pub open spec fn slots_out(state: State, n: nat, due: u64, stalled: bool) -> Seq<Seq<u8>>
    decreases n,
{
    if n == 0 {
        Seq::empty()
    } else {
        slots_out(state, (n - 1) as nat, due, stalled).push(
            state.packets_sent((n - 1) as nat, due, stalled).packet_out(due, stalled),
        )
    }
}

/// The packets of the datagram emitted at `now`, one by one.
pub open spec fn slots_of(state: State, now: Nanos) -> Seq<Seq<u8>> {
    let open = state.opened(now);
    slots_out(open, state.per_datagram as nat, open.media.owed(now), open.stalled)
}

/// The packets that `calls` send, one by one.
pub open spec fn sent_by(state: State, calls: Seq<Call>) -> Seq<Seq<u8>>
    decreases calls.len(),
{
    if calls.len() == 0 {
        Seq::empty()
    } else {
        let before = after_calls(state, calls.drop_last());
        let earlier = sent_by(state, calls.drop_last());
        match calls.last() {
            Call::EmitDatagram(now) => earlier + slots_of(before, now),
            _ => earlier,
        }
    }
}

/// Those of `packets` that are not stuffing.
pub open spec fn content_of(packets: Seq<Seq<u8>>) -> Seq<Seq<u8>>
    decreases packets.len(),
{
    if packets.len() == 0 {
        Seq::empty()
    } else if pid_of(packets.last()) != NULL_PID {
        content_of(packets.drop_last()).push(packets.last())
    } else {
        content_of(packets.drop_last())
    }
}

/// Packets in hand, in whatever part of the scheduler has them.
pub open spec fn in_hand(state: State) -> nat {
    state.deferred.len() + match state.grid {
        Some(grid) => grid.placed.len() + grid.run.len(),
        None => state.buffer.len(),
    }
}

/// What has been sent, lost or is still in hand.
pub open spec fn accounted(state: State) -> int {
    state.stats.content_packets + state.stats.dropped_packets + state.stats.late_drops + in_hand(
        state,
    )
}

/// Whether no counter of what comes and goes has reached its limit.
pub open spec fn countable(state: State) -> bool {
    &&& state.stats.output_packets < u64::MAX
    &&& state.stats.content_packets < u64::MAX
    &&& state.stats.null_packets < u64::MAX
    &&& state.stats.pcr_inserted < u64::MAX
    &&& state.stats.dropped_packets < u64::MAX
    &&& state.stats.late_drops < u64::MAX
    &&& state.stats.input_nulls_stripped < u64::MAX
}

/// Whether no counter of `before` is above that of `after`.
pub open spec fn counted_on(before: State, after: State) -> bool {
    &&& before.stats.output_packets <= after.stats.output_packets
    &&& before.stats.content_packets <= after.stats.content_packets
    &&& before.stats.null_packets <= after.stats.null_packets
    &&& before.stats.pcr_inserted <= after.stats.pcr_inserted
    &&& before.stats.dropped_packets <= after.stats.dropped_packets
    &&& before.stats.late_drops <= after.stats.late_drops
    &&& before.stats.input_nulls_stripped <= after.stats.input_nulls_stripped
}

/// Room in every buffer, nothing but content in it, and a PCR PID of content.
spec fn stocked(state: State) -> bool {
    &&& state.capacity >= 1
    &&& state.buffer.len() <= state.capacity
    &&& forall|i: int| 0 <= i < state.buffer.len() ==> pid_of(#[trigger] state.buffer[i]) != NULL_PID
    &&& forall|i: int|
        0 <= i < state.deferred.len() ==> pid_of(#[trigger] state.deferred[i]) != NULL_PID
    &&& state.pcr_pid matches Some(pid) ==> pid < NULL_PID
    &&& state.grid matches Some(grid) ==> {
        &&& grid.stuffing_free()
        &&& grid.capacity >= 1
        &&& grid.placed.len() <= grid.capacity
        &&& grid.open is None ==> grid.run.len() == 0
    }
}

/// The output side of the account: every slot sent is one of content, stuffing or an
/// inserted PCR.
spec fn balanced(state: State) -> bool {
    state.stats.output_packets == state.stats.content_packets + state.stats.null_packets
        + state.stats.pcr_inserted
}

/// What one slot does to the account.
#[verifier::spinoff_prover]
proof fn lemma_slot_account(state: State, due: u64, stalled: bool)
    requires
        stocked(state),
        countable(state.packet_sent(due, stalled)),
    ensures
        ({
            let after = state.packet_sent(due, stalled);
            let packet = state.packet_out(due, stalled);
            &&& stocked(after)
            &&& counted_on(state, after)
            &&& accounted(after) == accounted(state)
            &&& balanced(state) ==> balanced(after)
            &&& after.stats.null_packets == state.stats.null_packets + if pid_of(packet)
                == NULL_PID {
                1int
            } else {
                0int
            }
            &&& after.stats.input_nulls_stripped == state.stats.input_nulls_stripped
        }),
{
    let ready = state.admitted(state.media.released < due);
    if let Some(grid) = state.grid {
        lemma_overdue_is_a_prefix(grid.placed, state.slot);
        lemma_no_stuffing_comes(grid, Seq::empty(), 0, state.slot);
    }
    assert(stocked(ready));
    assert(counted_on(state, ready));
    lemma_pid_out(ready, due, stalled);
}

/// The PID that a slot goes out on.
proof fn lemma_pid_out(ready: State, due: u64, stalled: bool)
    requires
        stocked(ready),
    ensures
        pid_of(null_bytes()) == NULL_PID,
        ready.insertion(stalled) matches Some(pcr) ==> pid_of(
            crate::null_insertion::pcr_only_bytes(
                ready.pcr_pid->Some_0,
                ready.pcr_pid_cc,
                pcr as int,
            ),
        ) != NULL_PID,
        ready.deferred.len() > 0 ==> pid_of(ready.content_bytes(ready.deferred.first()))
            != NULL_PID,
{
    if ready.deferred.len() > 0 {
        let packet = ready.deferred.first();
        let bytes = ready.content_bytes(packet);
        assert(bytes[1] == packet[1] && bytes[2] == packet[2]);
    }
}

/// How many of `packets` are stuffing.
pub open spec fn stuffing_in(packets: Seq<Seq<u8>>) -> nat
    decreases packets.len(),
{
    if packets.len() == 0 {
        0
    } else {
        stuffing_in(packets.drop_last()) + if pid_of(packets.last()) == NULL_PID {
            1nat
        } else {
            0nat
        }
    }
}

/// Stuffing in two rows of packets is stuffing in the one and in the other.
proof fn lemma_stuffing_adds_up(one: Seq<Seq<u8>>, other: Seq<Seq<u8>>)
    ensures
        stuffing_in(one + other) == stuffing_in(one) + stuffing_in(other),
    decreases other.len(),
{
    if other.len() == 0 {
        assert(one + other =~= one);
    } else {
        lemma_stuffing_adds_up(one, other.drop_last());
        assert((one + other).drop_last() =~= one + other.drop_last());
    }
}

/// What `n` slots do to the account.
proof fn lemma_slots_account(state: State, n: nat, due: u64, stalled: bool)
    requires
        stocked(state),
        countable(state.packets_sent(n, due, stalled)),
    ensures
        ({
            let after = state.packets_sent(n, due, stalled);
            let packets = slots_out(state, n, due, stalled);
            &&& stocked(after)
            &&& counted_on(state, after)
            &&& accounted(after) == accounted(state)
            &&& balanced(state) ==> balanced(after)
            &&& after.stats.null_packets == state.stats.null_packets + stuffing_in(packets)
            &&& after.stats.input_nulls_stripped == state.stats.input_nulls_stripped
            &&& packets.len() == n
        }),
    decreases n,
{
    if n > 0 {
        let before = state.packets_sent((n - 1) as nat, due, stalled);
        let earlier = slots_out(state, (n - 1) as nat, due, stalled);
        assert(countable(before)) by {
            lemma_counters_rise(before, due, stalled);
        }
        lemma_slots_account(state, (n - 1) as nat, due, stalled);
        lemma_slot_account(before, due, stalled);
        assert(slots_out(state, n, due, stalled).drop_last() =~= earlier);
    }
}

/// No counter falls.
proof fn lemma_counters_rise(state: State, due: u64, stalled: bool)
    ensures
        counted_on(state, state.packet_sent(due, stalled)),
{
}

/// What one call does to the account.
#[verifier::spinoff_prover]
#[verifier::rlimit(30)]
proof fn lemma_call_account(state: State, call: Call)
    requires
        stocked(state),
        countable(after_call(state, call)),
        in_hand(state) <= u64::MAX,
    ensures
        ({
            let after = after_call(state, call);
            &&& stocked(after)
            &&& counted_on(state, after)
            &&& accounted(after) == accounted(state) + taken_on(seq![call]).len()
            &&& balanced(state) ==> balanced(after)
            &&& after.stats.null_packets == state.stats.null_packets + match call {
                Call::EmitDatagram(now) => stuffing_in(slots_of(state, now)),
                _ => 0,
            }
            &&& after.stats.input_nulls_stripped == state.stats.input_nulls_stripped
                + stuffing_taken_on(seq![call])
        }),
{
    reveal(after_call);
    let one = seq![call];
    assert(one.drop_last() =~= Seq::<Call>::empty());
    assert(one.last() == call);
    assert(taken_on(one.drop_last()).len() == 0 && stuffing_taken_on(one.drop_last()) == 0);
    match call {
        Call::Enqueue(packet, now) => {
            if pid_of(packet) != NULL_PID {
                lemma_enqueue_account(state, packet, now);
            }
        },
        Call::Flush => {
            if let Some(grid) = state.grid {
                lemma_no_stuffing_comes(grid, Seq::empty(), 0, 0);
            }
        },
        Call::EmitDatagram(now) => {
            let open = state.opened(now);
            assert(stocked(open));
            assert(counted_on(state, open));
            lemma_slots_account(
                open,
                state.per_datagram as nat,
                open.media.owed(now),
                open.stalled,
            );
            assert(accounted(open) == accounted(state));
        },
        _ => {},
    }
}

/// Whether two states have counted, hold and would number the same.
spec fn alike_in_hand(one: State, other: State) -> bool {
    &&& one.stats.output_packets == other.stats.output_packets
    &&& one.stats.content_packets == other.stats.content_packets
    &&& one.stats.null_packets == other.stats.null_packets
    &&& one.stats.pcr_inserted == other.stats.pcr_inserted
    &&& one.stats.dropped_packets == other.stats.dropped_packets
    &&& one.stats.late_drops == other.stats.late_drops
    &&& one.stats.input_nulls_stripped == other.stats.input_nulls_stripped
    &&& one.deferred == other.deferred
    &&& one.buffer == other.buffer
    &&& one.grid is Some == other.grid is Some
    &&& one.grid is Some ==> one.grid->Some_0.placed == other.grid->Some_0.placed
        && one.grid->Some_0.run == other.grid->Some_0.run
}

/// Taking note of an arrival moves nothing.
#[verifier::spinoff_prover]
proof fn lemma_noting_moves_nothing(state: State, packet: Seq<u8>, now: Nanos)
    requires
        stocked(state),
        pid_of(packet) != NULL_PID,
    ensures
        stocked(state.noted(packet, now)),
        alike_in_hand(state, state.noted(packet, now)),
{
    assert(pid_of(packet) < NULL_PID) by {
        assert(packet[1] as int % 32 <= 31);
    }
    let woken = if state.stalled {
        state.resumed(now)
    } else {
        state
    };
    assert(stocked(woken) && alike_in_hand(state, woken));
    let heard = woken.gap_noted(now);
    assert(stocked(heard) && alike_in_hand(state, heard));
}

/// What taking on a packet does to what is on the grid.
#[verifier::spinoff_prover]
proof fn lemma_push_account(grid: Placement, packet: Seq<u8>, now: Nanos)
    requires
        grid.capacity >= 1,
        grid.placed.len() <= grid.capacity,
        grid.open is None ==> grid.run.len() == 0,
        grid.placed.len() + grid.run.len() <= u64::MAX,
    ensures
        ({
            let after = grid.pushed(packet, now);
            &&& after.placed.len() + after.run.len() + grid.push_drops(packet)
                == grid.placed.len() + grid.run.len() + 1
            &&& after.capacity == grid.capacity
            &&& after.placed.len() <= after.capacity
            &&& after.open is None ==> after.run.len() == 0
        }),
{
}

/// What taking on content does to the account.
#[verifier::spinoff_prover]
proof fn lemma_enqueue_account(state: State, packet: Seq<u8>, now: Nanos)
    requires
        stocked(state),
        countable(state.enqueued(packet, now)),
        in_hand(state) <= u64::MAX,
        pid_of(packet) != NULL_PID,
    ensures
        ({
            let after = state.enqueued(packet, now);
            &&& stocked(after)
            &&& counted_on(state, after)
            &&& accounted(after) == accounted(state) + 1
            &&& balanced(state) ==> balanced(after)
            &&& after.stats.null_packets == state.stats.null_packets
            &&& after.stats.input_nulls_stripped == state.stats.input_nulls_stripped
        }),
{
    let ready = state.noted(packet, now);
    lemma_noting_moves_nothing(state, packet, now);
    match ready.grid {
        Some(grid) => lemma_placing_account(ready, grid, packet, now),
        None => lemma_buffering_account(ready, packet, now),
    }
}

/// What placing content does to the account.
#[verifier::spinoff_prover]
proof fn lemma_placing_account(ready: State, grid: Placement, packet: Seq<u8>, now: Nanos)
    requires
        stocked(ready),
        ready.grid == Some(grid),
        ready.placed(grid, packet, now).stats.dropped_packets < u64::MAX,
        in_hand(ready) <= u64::MAX,
        pid_of(packet) != NULL_PID,
    ensures
        ({
            let after = ready.placed(grid, packet, now);
            &&& stocked(after)
            &&& counted_on(ready, after)
            &&& accounted(after) == accounted(ready) + 1
            &&& balanced(ready) ==> balanced(after)
            &&& after.stats.null_packets == ready.stats.null_packets
            &&& after.stats.input_nulls_stripped == ready.stats.input_nulls_stripped
        }),
{
    let after = ready.placed(grid, packet, now);
    lemma_push_account(grid, packet, now);
    lemma_no_stuffing_comes(grid, packet, now, 0);
    assert(after.grid == Some(grid.pushed(packet, now)));
    assert(after.deferred == ready.deferred && after.buffer == ready.buffer);
}

/// What buffering content does to the account.
#[verifier::spinoff_prover]
proof fn lemma_buffering_account(ready: State, packet: Seq<u8>, now: Nanos)
    requires
        stocked(ready),
        ready.grid is None,
        ready.buffered(packet, now).stats.dropped_packets < u64::MAX,
        pid_of(packet) != NULL_PID,
    ensures
        ({
            let after = ready.buffered(packet, now);
            &&& stocked(after)
            &&& counted_on(ready, after)
            &&& accounted(after) == accounted(ready) + 1
            &&& balanced(ready) ==> balanced(after)
            &&& after.stats.null_packets == ready.stats.null_packets
            &&& after.stats.input_nulls_stripped == ready.stats.input_nulls_stripped
        }),
{
    let after = ready.buffered(packet, now);
    assert(after.buffer == crate::jitter_buffer::joined(ready.buffer, ready.capacity, packet));
}

/// No call makes a counter fall.
#[verifier::spinoff_prover]
#[verifier::rlimit(30)]
pub proof fn lemma_calls_count_on(state: State, call: Call)
    ensures
        counted_on(state, after_call(state, call)),
{
    reveal(after_call);
    match call {
        Call::EmitDatagram(now) => {
            let open = state.opened(now);
            assert(counted_on(state, open));
            lemma_slots_count_on(
                open,
                state.per_datagram as nat,
                open.media.owed(now),
                open.stalled,
            );
        },
        Call::Enqueue(packet, now) => {
            let ready = state.noted(packet, now);
            assert(counted_on(state, ready));
        },
        _ => {},
    }
}

/// Nor do slots.
proof fn lemma_slots_count_on(state: State, n: nat, due: u64, stalled: bool)
    ensures
        counted_on(state, state.packets_sent(n, due, stalled)),
    decreases n,
{
    if n > 0 {
        lemma_slots_count_on(state, (n - 1) as nat, due, stalled);
        lemma_counters_rise(state.packets_sent((n - 1) as nat, due, stalled), due, stalled);
    }
}

/// The account after any calls, from any state that is itself in order.
proof fn lemma_account(state: State, calls: Seq<Call>)
    requires
        stocked(state),
        countable(after_calls(state, calls)),
        accounted(state) + taken_on(calls).len() <= u64::MAX,
    ensures
        ({
            let after = after_calls(state, calls);
            &&& stocked(after)
            &&& accounted(after) == accounted(state) + taken_on(calls).len()
            &&& balanced(state) ==> balanced(after)
            &&& after.stats.null_packets == state.stats.null_packets + stuffing_in(
                sent_by(state, calls),
            )
            &&& after.stats.input_nulls_stripped == state.stats.input_nulls_stripped
                + stuffing_taken_on(calls)
        }),
    decreases calls.len(),
{
    if calls.len() > 0 {
        let earlier = calls.drop_last();
        let before = after_calls(state, earlier);
        let call = calls.last();
        lemma_calls_count_on(before, call);
        lemma_account(state, earlier);
        lemma_call_account(before, call);
        let one = seq![call];
        assert(one.drop_last() =~= Seq::<Call>::empty());
        assert(one.last() == call);
        assert(taken_on(one.drop_last()).len() == 0 && stuffing_taken_on(one.drop_last()) == 0);
        if let Call::EmitDatagram(now) = call {
            lemma_stuffing_adds_up(sent_by(state, earlier), slots_of(before, now));
        }
    }
}

/// Every packet that comes in is accounted for: after any calls on a new scheduler,
/// under either clocking, each packet of content it was given has been sent, or is
/// counted as dropped or as late, or is still in hand - exactly once - and each packet
/// of stuffing is counted as stripped. What is in hand is what the scheduler says it
/// holds.
pub proof fn law_every_packet_is_accounted_for(config: Config, calls: Seq<Call>)
    requires
        countable(after_calls(State::initial(config), calls)),
        taken_on(calls).len() <= u64::MAX,
    ensures
        ({
            let after = after_calls(State::initial(config), calls);
            &&& taken_on(calls).len() == after.stats.content_packets + after.stats.dropped_packets
                + after.stats.late_drops + in_hand(after)
            &&& in_hand(after) <= usize::MAX ==> in_hand(after) == after.held()
            &&& stuffing_taken_on(calls) == after.stats.input_nulls_stripped
        }),
{
    lemma_account(State::initial(config), calls);
}

/// The totals agree in every state that a new scheduler can reach: what has been sent
/// is content, stuffing and inserted PCRs, and the stuffing counted is the packets
/// that went out on the stuffing PID.
pub proof fn law_the_totals_agree(config: Config, calls: Seq<Call>)
    requires
        countable(after_calls(State::initial(config), calls)),
        taken_on(calls).len() <= u64::MAX,
    ensures
        ({
            let after = after_calls(State::initial(config), calls);
            &&& after.stats.output_packets == after.stats.content_packets
                + after.stats.null_packets + after.stats.pcr_inserted
            &&& after.stats.null_packets == stuffing_in(sent_by(State::initial(config), calls))
        }),
{
    lemma_account(State::initial(config), calls);
}

/// A datagram is its packets, one behind the other, a packet to each slot.
pub proof fn law_a_datagram_is_its_packets(state: State, now: Nanos, i: int)
    requires
        state.wf(),
        0 <= i < state.per_datagram,
    ensures
        slots_of(state, now).len() == state.per_datagram,
        state.datagram(now).len() == state.per_datagram * TS_PACKET_SIZE,
        is_packet(slots_of(state, now)[i]),
        state.datagram(now).subrange(i * TS_PACKET_SIZE, (i + 1) * TS_PACKET_SIZE) == slots_of(
            state,
            now,
        )[i],
{
    let open = state.opened(now);
    assert(open.wf()) by {
        assert(state.caught_up(now).wf());
    }
    lemma_slots_are_packets(
        open,
        state.per_datagram as nat,
        open.media.owed(now),
        open.stalled,
        i,
    );
}

/// The same of `n` slots.
proof fn lemma_slots_are_packets(state: State, n: nat, due: u64, stalled: bool, i: int)
    requires
        state.wf(),
    ensures
        state.packets_sent(n, due, stalled).wf(),
        slots_out(state, n, due, stalled).len() == n,
        state.packets_out(n, due, stalled).len() == n * 188,
        0 <= i < n ==> is_packet(slots_out(state, n, due, stalled)[i]) && state.packets_out(
            n,
            due,
            stalled,
        ).subrange(i * 188, (i + 1) * 188) == slots_out(state, n, due, stalled)[i],
    decreases n,
{
    if n > 0 {
        let before = state.packets_sent((n - 1) as nat, due, stalled);
        let sent = state.packets_out((n - 1) as nat, due, stalled);
        let packet = before.packet_out(due, stalled);
        let all = state.packets_out(n, due, stalled);
        lemma_slots_are_packets(state, (n - 1) as nat, due, stalled, i);
        lemma_a_slot_keeps_the_state(before, due, stalled);
        lemma_a_slot_is_a_packet(before, due, stalled);
        if 0 <= i < n - 1 {
            assert(all.subrange(i * 188, (i + 1) * 188) =~= sent.subrange(
                i * 188,
                (i + 1) * 188,
            ));
        } else if i == n - 1 {
            assert(all.subrange(i * 188, (i + 1) * 188) =~= packet);
        }
    }
}

/// What goes out in a slot is a packet.
proof fn lemma_a_slot_is_a_packet(state: State, due: u64, stalled: bool)
    requires
        state.wf(),
    ensures
        is_packet(state.packet_out(due, stalled)),
{
    let ready = state.admitted(state.media.released < due);
    assert(ready.sound()) by {
        if let Some(grid) = state.grid {
            lemma_overdue_is_a_prefix(grid.placed, state.slot);
            lemma_no_stuffing_comes(grid, Seq::empty(), 0, state.slot);
        }
    }
    if ready.deferred.len() > 0 {
        let packet = ready.deferred.first();
        assert(is_content(packet));
        lemma_content_clock(ready, packet);
        assert(ready.content_bytes(packet)[0] == packet[0]);
    }
}

// --- the order of what passes through -----------------------------------------------------

/// The content that waits under arrival clocking, the next to go out first.
pub open spec fn waiting(state: State) -> Seq<Seq<u8>> {
    state.deferred + state.buffer
}

/// Whether a state is that of a leg that releases by its own clock and keeps the PCR
/// values of its source.
pub open spec fn passes_through(state: State) -> bool {
    state.grid is None && state.regen is None
}

/// Content of two rows of packets is the content of the one and then of the other.
pub proof fn lemma_content_adds_up(one: Seq<Seq<u8>>, other: Seq<Seq<u8>>)
    ensures
        content_of(one + other) == content_of(one) + content_of(other),
    decreases other.len(),
{
    if other.len() == 0 {
        assert(one + other =~= one);
        assert(content_of(one) + content_of(other) =~= content_of(one));
    } else {
        lemma_content_adds_up(one, other.drop_last());
        assert((one + other).drop_last() =~= one + other.drop_last());
        assert(content_of(one + other) =~= content_of(one) + content_of(other));
    }
}

/// What a slot sends is what waited longest.
#[verifier::spinoff_prover]
proof fn lemma_slot_order(state: State, due: u64, stalled: bool)
    requires
        stocked(state),
        passes_through(state),
    ensures
        ({
            let after = state.packet_sent(due, stalled);
            let packet = state.packet_out(due, stalled);
            &&& stocked(after)
            &&& passes_through(after)
            &&& if pid_of(packet) != NULL_PID {
                seq![packet] + waiting(after) == waiting(state)
            } else {
                waiting(after) == waiting(state)
            }
        }),
{
    let ready = state.admitted(state.media.released < due);
    let after = state.packet_sent(due, stalled);
    let packet = state.packet_out(due, stalled);
    assert(stocked(ready));
    assert(waiting(ready) =~= waiting(state));
    lemma_pid_out(ready, due, stalled);
    assert(ready.insertion(stalled) is None);
    if ready.deferred.len() > 0 {
        assert(packet == ready.deferred.first());
        assert(seq![packet] + waiting(after) =~= waiting(ready));
    }
}

/// The same of `n` slots.
#[verifier::spinoff_prover]
proof fn lemma_slots_order(state: State, n: nat, due: u64, stalled: bool)
    requires
        stocked(state),
        passes_through(state),
    ensures
        ({
            let after = state.packets_sent(n, due, stalled);
            &&& stocked(after)
            &&& passes_through(after)
            &&& content_of(slots_out(state, n, due, stalled)) + waiting(after) == waiting(state)
        }),
    decreases n,
{
    let after = state.packets_sent(n, due, stalled);
    let out = slots_out(state, n, due, stalled);
    if n == 0 {
        assert(content_of(out) + waiting(after) =~= waiting(state));
    } else {
        let before = state.packets_sent((n - 1) as nat, due, stalled);
        let packet = before.packet_out(due, stalled);
        lemma_slots_order(state, (n - 1) as nat, due, stalled);
        lemma_slot_order(before, due, stalled);
        lemma_order_goes_on(
            slots_out(state, (n - 1) as nat, due, stalled),
            packet,
            waiting(before),
            waiting(after),
        );
    }
}

/// One more packet sent of what was waiting.
proof fn lemma_order_goes_on(
    sent: Seq<Seq<u8>>,
    packet: Seq<u8>,
    before: Seq<Seq<u8>>,
    after: Seq<Seq<u8>>,
)
    requires
        if pid_of(packet) != NULL_PID {
            seq![packet] + after == before
        } else {
            after == before
        },
    ensures
        content_of(sent.push(packet)) + after == content_of(sent) + before,
{
    assert(sent.push(packet).drop_last() =~= sent);
    assert(content_of(sent.push(packet)) + after =~= content_of(sent) + before);
}

/// What one call does to the order.
#[verifier::spinoff_prover]
proof fn lemma_call_order(state: State, call: Call)
    requires
        stocked(state),
        passes_through(state),
        after_call(state, call).stats.dropped_packets == state.stats.dropped_packets < u64::MAX,
    ensures
        ({
            let after = after_call(state, call);
            &&& stocked(after)
            &&& passes_through(after)
            &&& match call {
                Call::EmitDatagram(now) => content_of(slots_of(state, now)) + waiting(after)
                    == waiting(state),
                Call::Enqueue(packet, _) if pid_of(packet) != NULL_PID => waiting(after)
                    == waiting(state).push(packet),
                _ => waiting(after) == waiting(state),
            }
        }),
{
    reveal(after_call);
    match call {
        Call::Enqueue(packet, now) => {
            if pid_of(packet) != NULL_PID {
                let ready = state.noted(packet, now);
                lemma_noting_moves_nothing(state, packet, now);
                assert(passes_through(ready));
                lemma_buffering_account(ready, packet, now);
                let after = ready.buffered(packet, now);
                assert(after.buffer == crate::jitter_buffer::joined(
                    ready.buffer,
                    ready.capacity,
                    packet,
                ));
                assert(waiting(after) =~= waiting(state).push(packet));
            }
        },
        Call::EmitDatagram(now) => {
            let open = state.opened(now);
            assert(stocked(open) && passes_through(open) && waiting(open) == waiting(state));
            lemma_slots_order(
                open,
                state.per_datagram as nat,
                open.media.owed(now),
                open.stalled,
            );
        },
        _ => {},
    }
}

/// The order over any calls.
proof fn lemma_order(state: State, calls: Seq<Call>)
    requires
        stocked(state),
        passes_through(state),
        after_calls(state, calls).stats.dropped_packets == state.stats.dropped_packets < u64::MAX,
    ensures
        ({
            let after = after_calls(state, calls);
            &&& stocked(after)
            &&& passes_through(after)
            &&& content_of(sent_by(state, calls)) + waiting(after) == waiting(state) + taken_on(
                calls,
            )
        }),
    decreases calls.len(),
{
    let after = after_calls(state, calls);
    let sent = content_of(sent_by(state, calls));
    if calls.len() == 0 {
        assert(sent + waiting(after) =~= waiting(state) + taken_on(calls));
    } else {
        let earlier = calls.drop_last();
        let before = after_calls(state, earlier);
        let call = calls.last();
        lemma_calls_count_on(before, call);
        lemma_drops_count_on(state, earlier);
        lemma_order(state, earlier);
        lemma_call_order(before, call);
        let was = content_of(sent_by(state, earlier));
        match call {
            Call::EmitDatagram(now) => {
                let out = slots_of(before, now);
                lemma_content_adds_up(sent_by(state, earlier), out);
                assert(sent + waiting(after) =~= was + (content_of(out) + waiting(after)));
            },
            Call::Enqueue(packet, _) => {
                if pid_of(packet) != NULL_PID {
                    assert(sent + waiting(after) =~= (was + waiting(before)).push(packet));
                    assert(waiting(state) + taken_on(calls) =~= (waiting(state) + taken_on(
                        earlier,
                    )).push(packet));
                }
            },
            _ => {},
        }
    }
}

/// Drops are never uncounted.
proof fn lemma_drops_count_on(state: State, calls: Seq<Call>)
    ensures
        state.stats.dropped_packets <= after_calls(state, calls).stats.dropped_packets,
    decreases calls.len(),
{
    if calls.len() > 0 {
        lemma_drops_count_on(state, calls.drop_last());
        lemma_calls_count_on(after_calls(state, calls.drop_last()), calls.last());
    }
}

/// Content passes through in order, byte for byte: under arrival clocking with source
/// PCR values kept, as long as nothing has been dropped, what a new scheduler has sent
/// besides stuffing, followed by what still waits, is the content it was given - none
/// of it lost, doubled, altered or overtaken.
pub proof fn law_content_passes_through_in_order(config: Config, calls: Seq<Call>)
    requires
        passes_through(State::initial(config)),
        after_calls(State::initial(config), calls).stats.dropped_packets == 0,
    ensures
        content_of(sent_by(State::initial(config), calls)) + waiting(
            after_calls(State::initial(config), calls),
        ) == taken_on(calls),
        passes_through(after_calls(State::initial(config), calls)),
{
    let new = State::initial(config);
    lemma_order(new, calls);
    assert(waiting(new) + taken_on(calls) =~= taken_on(calls));
}

} // verus!
