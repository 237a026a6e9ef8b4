//! How often a PCR goes out, over everything that can happen to a scheduler.

use vstd::prelude::*;

use crate::account::{after_call, after_calls, sent_by, slots_of, slots_out, Call};
use crate::arith::{at_longest, ceil_div, Nanos, Ratio, LONGEST, NANOS_PER_SEC};
use crate::config::{Config, PcrMode};
use crate::jitter_buffer::joined;
use crate::null_insertion::{null_bytes, pcr_only_bytes, NULL_PID};
use crate::packet::pid_of;
use crate::pcr::{carries_pcr, pcr_of, PACKET_BITS};
use crate::schedule::State;

verus! {

/// Whether any of `packets` carries a PCR.
pub open spec fn clocked_by(packets: Seq<Seq<u8>>) -> bool
    decreases packets.len(),
{
    packets.len() > 0 && (pcr_of(packets.last()) is Some || clocked_by(packets.drop_last()))
}

/// How many of `packets` have gone out since the last of them that carries a PCR, none
/// as long as none has.
pub open spec fn since_pcr(packets: Seq<Seq<u8>>) -> nat
    decreases packets.len(),
{
    if packets.len() == 0 || pcr_of(packets.last()) is Some || !clocked_by(packets) {
        0
    } else {
        since_pcr(packets.drop_last()) + 1
    }
}

/// Whether no stretch of `packets` without a PCR, once there was one, reaches `spacing`.
pub open spec fn repeats_within(packets: Seq<Seq<u8>>, spacing: int) -> bool {
    forall|k: int| 0 <= k <= packets.len() ==> since_pcr(#[trigger] packets.take(k)) < spacing
}

/// Whether every datagram that `calls` emit goes out while the source is not stalled, in
/// slots that can be counted.
pub open spec fn source_lives(state: State, calls: Seq<Call>) -> bool
    decreases calls.len(),
{
    calls.len() > 0 ==> {
        let before = after_calls(state, calls.drop_last());
        &&& source_lives(state, calls.drop_last())
        &&& calls.last() matches Call::EmitDatagram(now) ==> !before.opened(now).stalled
            && before.opened(now).slot + before.per_datagram < u64::MAX
    }
}

/// A scheduler that knows what PCR it has sent, `since` packets ago, and on what PID.
spec fn keeps_time(state: State, clocked: bool, since: nat) -> bool {
    &&& state.regen is Some
    &&& state.pcr_spacing >= 1
    &&& state.capacity >= 1
    &&& state.pcr_pid is None ==> unclocked(state)
    &&& clocked ==> state.last_pcr_index is Some
    &&& since > 0 ==> clocked
    &&& since < state.pcr_spacing
    &&& state.last_pcr_index matches Some(last) ==> {
        &&& state.pcr_pid is Some
        &&& last + since < state.slot
        &&& state.stats.output_packets > 0
        &&& state.grid is None ==> state.regen->Some_0.anchor is Some
    }
}

/// Whether nothing that a scheduler holds carries a PCR.
pub open spec fn unclocked(state: State) -> bool {
    &&& state.last_pcr_index is None
    &&& forall|i: int| 0 <= i < state.buffer.len() ==> pcr_of(#[trigger] state.buffer[i]) is None
    &&& forall|i: int|
        0 <= i < state.deferred.len() ==> pcr_of(#[trigger] state.deferred[i]) is None
    &&& state.grid matches Some(grid) ==> grid.open is None && grid.run.len() == 0
        && grid.placed.len() == 0
}

/// Content keeps its PCR, whatever value it goes out with, and gains none.
pub proof fn lemma_content_keeps_its_pcr(state: State, packet: Seq<u8>)
    ensures
        pcr_of(state.content_bytes(packet)) is Some <==> pcr_of(packet) is Some,
{
    let out = state.content_bytes(packet);
    if out != packet {
        let flags = packet[5];
        assert((flags as int % 128 + 128) / 16 % 2 == flags as int / 16 % 2);
        assert(out.len() == packet.len());
        if packet.len() > 5 {
            assert(out[3] == packet[3] && out[4] == packet[4]);
        }
    }
}

/// An inserted packet carries a PCR, and stuffing none.
pub proof fn lemma_what_is_inserted(pid: u16, cc: u8, ticks: int)
    ensures
        pcr_of(pcr_only_bytes(pid, cc, ticks)) is Some,
        pcr_of(null_bytes()) is None,
{
    assert(carries_pcr(pcr_only_bytes(pid, cc, ticks)));
}

/// One slot, with the source alive.
#[verifier::spinoff_prover]
#[verifier::rlimit(30)]
proof fn lemma_slot_keeps_time(state: State, clocked: bool, since: nat, due: u64)
    requires
        keeps_time(state, clocked, since),
        state.slot < u64::MAX,
    ensures
        ({
            let next = state.packet_sent(due, false);
            let ticks = pcr_of(state.packet_out(due, false)) is Some;
            let now_clocked = clocked || ticks;
            &&& next.slot == state.slot + 1
            &&& next.per_datagram == state.per_datagram
            &&& next.pcr_spacing == state.pcr_spacing
            &&& keeps_time(
                next,
                now_clocked,
                if ticks || !now_clocked {
                    0
                } else {
                    since + 1
                },
            )
        }),
{
    let ready = state.admitted(state.media.released < due);
    let next = state.packet_sent(due, false);
    assert(ready.slot == state.slot && ready.last_pcr_index == state.last_pcr_index);
    assert(ready.regen == state.regen && ready.pcr_pid == state.pcr_pid);
    if state.pcr_pid is None {
        assert(unclocked(ready)) by {
            if let Some(grid) = state.grid {
                assert(grid.placed.skip(0) =~= grid.placed);
            }
        }
    }
    lemma_what_is_inserted(0, 0, 0);
    match ready.insertion(false) {
        Some(pcr) => {
            lemma_what_is_inserted(ready.pcr_pid->Some_0, ready.pcr_pid_cc, pcr as int);
        },
        None => {
            if ready.deferred.len() > 0 {
                lemma_content_keeps_its_pcr(ready, ready.deferred.first());
            }
        },
    }
}

/// One more packet.
proof fn lemma_one_more(packets: Seq<Seq<u8>>, packet: Seq<u8>, spacing: int)
    requires
        repeats_within(packets, spacing),
    ensures
        ({
            let ticks = pcr_of(packet) is Some;
            let clocked = clocked_by(packets) || ticks;
            &&& clocked_by(packets.push(packet)) == clocked
            &&& since_pcr(packets.push(packet)) == if ticks || !clocked {
                0
            } else {
                since_pcr(packets) + 1
            }
        }),
        since_pcr(packets.push(packet)) < spacing ==> repeats_within(packets.push(packet), spacing),
{
    let more = packets.push(packet);
    assert(more.drop_last() =~= packets);
    if since_pcr(more) < spacing {
        assert forall|k: int| 0 <= k <= more.len() implies since_pcr(#[trigger] more.take(k))
            < spacing by {
            if k == more.len() {
                assert(more.take(k) =~= more);
            } else {
                assert(more.take(k) =~= packets.take(k));
            }
        }
    }
}

/// `n` slots, with the source alive.
#[verifier::spinoff_prover]
proof fn lemma_slots_keep_time(state: State, sent: Seq<Seq<u8>>, n: nat, due: u64)
    requires
        keeps_time(state, clocked_by(sent), since_pcr(sent)),
        repeats_within(sent, state.pcr_spacing as int),
        state.slot + n < u64::MAX,
    ensures
        ({
            let next = state.packets_sent(n, due, false);
            let all = sent + slots_out(state, n, due, false);
            &&& next.slot == state.slot + n
            &&& next.pcr_spacing == state.pcr_spacing
            &&& keeps_time(next, clocked_by(all), since_pcr(all))
            &&& repeats_within(all, state.pcr_spacing as int)
        }),
    decreases n,
{
    if n == 0 {
        assert(sent + slots_out(state, n, due, false) =~= sent);
    } else {
        let p = (n - 1) as nat;
        let before = state.packets_sent(p, due, false);
        let so_far = sent + slots_out(state, p, due, false);
        let packet = before.packet_out(due, false);
        lemma_slots_keep_time(state, sent, p, due);
        lemma_slot_keeps_time(before, clocked_by(so_far), since_pcr(so_far), due);
        lemma_one_more(so_far, packet, state.pcr_spacing as int);
        assert(sent + slots_out(state, n, due, false) =~= so_far.push(packet));
    }
}

/// A call that sends nothing.
#[verifier::spinoff_prover]
#[verifier::rlimit(40)]
proof fn lemma_call_keeps_time(state: State, call: Call, clocked: bool, since: nat)
    requires
        keeps_time(state, clocked, since),
        !(call is EmitDatagram),
    ensures
        keeps_time(after_call(state, call), clocked, since),
        after_call(state, call).pcr_spacing == state.pcr_spacing,
{
    reveal(after_call);
    match call {
        Call::Enqueue(packet, now) => {
            if pid_of(packet) != NULL_PID {
                lemma_enqueue_keeps_time(state, packet, now, clocked, since);
            }
        },
        Call::Flush => {},
        _ => {},
    }
}

/// A buffer of packets without a PCR, and another such packet.
pub proof fn lemma_joined_unclocked(queue: Seq<Seq<u8>>, capacity: usize, packet: Seq<u8>)
    requires
        capacity >= 1,
        pcr_of(packet) is None,
        forall|i: int| 0 <= i < queue.len() ==> pcr_of(#[trigger] queue[i]) is None,
    ensures
        ({
            let all = joined(queue, capacity, packet);
            forall|i: int| 0 <= i < all.len() ==> pcr_of(#[trigger] all[i]) is None
        }),
{
}

/// A packet of content taken on.
#[verifier::spinoff_prover]
#[verifier::rlimit(40)]
proof fn lemma_enqueue_keeps_time(
    state: State,
    packet: Seq<u8>,
    now: Nanos,
    clocked: bool,
    since: nat,
)
    requires
        keeps_time(state, clocked, since),
        pid_of(packet) != NULL_PID,
    ensures
        keeps_time(state.enqueued(packet, now), clocked, since),
        state.enqueued(packet, now).pcr_spacing == state.pcr_spacing,
{
    let ready = state.noted(packet, now);
    assert(ready.last_pcr_index == state.last_pcr_index && ready.slot == state.slot);
    assert(ready.regen is Some);
    assert(ready.stats.output_packets == state.stats.output_packets);
    assert(ready.pcr_spacing == state.pcr_spacing);
    assert(state.grid is None ==> ready.regen->Some_0.anchor == state.regen->Some_0.anchor);
    assert(state.grid is Some <==> ready.grid is Some);
    let next = state.enqueued(packet, now);
    if next.pcr_pid is None {
        assert(pcr_of(packet) is None);
        assert(unclocked(state));
        assert(ready.deferred == state.deferred && ready.buffer == state.buffer);
        match ready.grid {
            Some(grid) => {
                assert(grid.pushed(packet, now) == grid);
                assert(next.deferred == state.deferred && next.buffer == state.buffer);
                assert(next.last_pcr_index is None);
            },
            None => {
                assert(next.deferred == state.deferred);
                assert(next.buffer == joined(state.buffer, ready.capacity, packet));
                lemma_joined_unclocked(state.buffer, ready.capacity, packet);
            },
        }
        assert(unclocked(next));
    }
}

/// Any calls, with the source alive.
#[verifier::spinoff_prover]
proof fn lemma_calls_keep_time(state: State, calls: Seq<Call>)
    requires
        keeps_time(state, false, 0),
        source_lives(state, calls),
    ensures
        ({
            let sent = sent_by(state, calls);
            let next = after_calls(state, calls);
            &&& next.pcr_spacing == state.pcr_spacing
            &&& keeps_time(next, clocked_by(sent), since_pcr(sent))
            &&& repeats_within(sent, state.pcr_spacing as int)
        }),
    decreases calls.len(),
{
    if calls.len() > 0 {
        let before = after_calls(state, calls.drop_last());
        let sent = sent_by(state, calls.drop_last());
        lemma_calls_keep_time(state, calls.drop_last());
        match calls.last() {
            Call::EmitDatagram(now) => {
                let open = before.opened(now);
                lemma_opening_keeps_time(before, now, clocked_by(sent), since_pcr(sent));
                lemma_slots_keep_time(
                    open,
                    sent,
                    before.per_datagram as nat,
                    open.media.owed(now),
                );
                assert(after_call(before, calls.last()) == before.emitted(now)) by {
                    reveal(after_call);
                }
                assert(sent_by(state, calls) == sent + slots_of(before, now));
            },
            _ => {
                lemma_call_keeps_time(before, calls.last(), clocked_by(sent), since_pcr(sent));
            },
        }
    }
}

/// What precedes a datagram.
#[verifier::spinoff_prover]
proof fn lemma_opening_keeps_time(
    state: State,
    now: Nanos,
    clocked: bool,
    since: nat,
)
    requires
        keeps_time(state, clocked, since),
    ensures
        keeps_time(state.opened(now), clocked, since),
        state.opened(now).pcr_spacing == state.pcr_spacing,
{
    assert(keeps_time(state.caught_up(now), clocked, since));
}

/// The repetition limit is held over a whole run: whatever is called on a new scheduler
/// that regenerates its PCR, as long as no datagram goes out while the source is
/// stalled, once a PCR has gone out no `pcr_spacing` packets go out without another -
/// whatever content wanted their slots, and however the output was muted or moved in
/// between.
pub proof fn law_pcr_repetition_is_held_throughout(config: Config, calls: Seq<Call>)
    requires
        config.pcr == PcrMode::Regenerate,
        source_lives(State::initial(config), calls),
    ensures
        repeats_within(
            sent_by(State::initial(config), calls),
            State::initial(config).pcr_spacing as int,
        ),
{
    lemma_calls_keep_time(State::initial(config), calls);
}

/// The packets between two PCRs take no longer than the configured interval, on any
/// output that sends four packets and the rounding in that time.
pub proof fn law_the_spacing_fits_the_interval(config: Config)
    requires
        config.pcr_max_interval <= LONGEST,
        config.pcr_max_interval * State::initial(config).rate >= 4 * (PACKET_BITS * NANOS_PER_SEC)
            + 2 * State::initial(config).rate,
    ensures
        ({
            let state = State::initial(config);
            state.pcr_spacing * (PACKET_BITS * NANOS_PER_SEC) <= config.pcr_max_interval
                * state.rate
        }),
{
    let state = State::initial(config);
    let p = PACKET_BITS * NANOS_PER_SEC;
    let i = config.pcr_max_interval as int;
    let r = state.rate as int;
    let ratio = Ratio { numerator: 3, denominator: 4 };
    let t = at_longest(ratio.of(i)) as int;
    assert(ratio.of(i) == (2 * (i * 3) + 4) / 8);
    assert(4 * t <= 3 * i + 2);
    let whole = ceil_div(t * r, p);
    assert(t * r >= 0) by (nonlinear_arith)
        requires
            t >= 0,
            r >= 0,
    ;
    vstd::arithmetic::div_mod::lemma_fundamental_div_mod(t * r + p - 1, p);
    vstd::arithmetic::div_mod::lemma_mod_bound(t * r + p - 1, p);
    assert(whole * p <= t * r + p - 1) by (nonlinear_arith)
        requires
            t * r + p - 1 == p * whole + (t * r + p - 1) % p,
            (t * r + p - 1) % p >= 0,
    ;
    assert(4 * (t * r) <= 3 * (i * r) + 2 * r) by (nonlinear_arith)
        requires
            4 * t <= 3 * i + 2,
            r >= 0,
    ;
    let spacing = state.pcr_spacing as int;
    assert(spacing <= whole || spacing == 1);
    assert(spacing * p <= i * r) by (nonlinear_arith)
        requires
            spacing <= whole || spacing == 1,
            whole * p <= t * r + p - 1,
            4 * (t * r) <= 3 * (i * r) + 2 * r,
            i * r >= 4 * p + 2 * r,
            p > 0,
            r >= 0,
    ;
}

} // verus!
