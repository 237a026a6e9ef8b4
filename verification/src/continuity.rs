//! What an inserted PCR is taken for downstream: a packet on the PCR PID that repeats
//! the continuity counter of the packet before it.

use vstd::prelude::*;

use crate::account::{after_call, after_calls, sent_by, slots_of, slots_out, taken_on, Call};
use crate::arith::Nanos;
use crate::config::Config;
use crate::jitter_buffer::joined;
use crate::null_insertion::{null_bytes, pcr_only_bytes, NULL_PID};
use crate::packet::pid_of;
use crate::passage::{carried, carried_by, carried_in};
use crate::pcr::pcr_of;
use crate::repetition::{
    clocked_by, lemma_content_keeps_its_pcr, lemma_joined_unclocked, lemma_what_is_inserted,
    unclocked,
};
use crate::schedule::State;

verus! {

/// The last of `packets` on `pid`.
pub open spec fn last_on(packets: Seq<Seq<u8>>, pid: u16) -> Option<Seq<u8>>
    decreases packets.len(),
{
    if packets.len() == 0 {
        None
    } else if pid_of(packets.last()) == pid {
        Some(packets.last())
    } else {
        last_on(packets.drop_last(), pid)
    }
}

/// Whether any of `packets` on `pid` carries a PCR.
pub open spec fn clocked_on(packets: Seq<Seq<u8>>, pid: u16) -> bool
    decreases packets.len(),
{
    packets.len() > 0 && ((pid_of(packets.last()) == pid && pcr_of(packets.last()) is Some)
        || clocked_on(packets.drop_last(), pid))
}

/// Whether `out`, sent behind `packets`, repeats the counter of the last of them on its
/// own PID, where that PID has carried a PCR.
pub open spec fn repeats_the_counter(packets: Seq<Seq<u8>>, out: Seq<u8>) -> bool {
    let pid = pid_of(out);
    clocked_on(packets, pid) ==> last_on(packets, pid) is Some && out[3] as int % 16 == last_on(
        packets,
        pid,
    )->Some_0[3] as int % 16
}

/// Whether every packet of `sent` that is neither content nor stuffing is on `pid` and
/// repeats the counter of the packet before it there.
spec fn counters_hold(sent: Seq<Seq<u8>>, slots: Seq<Option<Seq<u8>>>, pid: Option<u16>) -> bool {
    &&& sent.len() == slots.len()
    &&& forall|i: int|
        #![trigger sent[i]]
        0 <= i < sent.len() && slots[i] is None && pid_of(sent[i]) != 0x1fff ==> pid == Some(
            pid_of(sent[i]),
        ) && repeats_the_counter(sent.take(i), sent[i])
}

/// A scheduler that knows the counter last sent on the PCR PID.
spec fn keeps_count(state: State, sent: Seq<Seq<u8>>) -> bool {
    &&& state.capacity >= 1
    &&& state.pcr_pid_cc < 16
    &&& state.pcr_pid is None ==> unclocked(state) && !clocked_by(sent)
    &&& state.pcr_pid matches Some(pid) ==> {
        &&& pid < 0x1fff
        &&& clocked_on(sent, pid) ==> last_on(sent, pid) is Some && state.pcr_pid_cc == last_on(
            sent,
            pid,
        )->Some_0[3] as int % 16
    }
}

/// What goes out for content is on its PID and has its counter.
proof fn lemma_content_keeps_its_header(state: State, packet: Seq<u8>)
    ensures
        pid_of(state.content_bytes(packet)) == pid_of(packet),
        state.content_bytes(packet)[3] == packet[3],
{
    let out = state.content_bytes(packet);
    if out != packet {
        assert(carried_unchanged(out, packet));
    }
}

/// The octets that a PID and a counter are read from.
spec fn carried_unchanged(out: Seq<u8>, packet: Seq<u8>) -> bool {
    out[1] == packet[1] && out[2] == packet[2] && out[3] == packet[3]
}

/// An inserted packet is on its PID, with its counter.
proof fn lemma_inserted_header(pid: u16, cc: u8, ticks: int)
    requires
        pid <= 0x1fff,
    ensures
        pid_of(pcr_only_bytes(pid, cc, ticks)) == pid,
        pcr_only_bytes(pid, cc, ticks)[3] as int % 16 == cc as int % 16,
        pid_of(null_bytes()) == 0x1fff,
{
}

/// One slot.
#[verifier::spinoff_prover]
#[verifier::rlimit(30)]
proof fn lemma_slot_keeps_count(state: State, sent: Seq<Seq<u8>>, due: u64, stalled: bool)
    requires
        keeps_count(state, sent),
    ensures
        ({
            let next = state.packet_sent(due, stalled);
            let out = state.packet_out(due, stalled);
            &&& next.pcr_pid == state.pcr_pid
            &&& keeps_count(next, sent.push(out))
            &&& carried(state, due, stalled) is None && pid_of(out) != 0x1fff ==> state.pcr_pid
                == Some(pid_of(out)) && repeats_the_counter(sent, out)
        }),
{
    let ready = state.admitted(state.media.released < due);
    let next = state.packet_sent(due, stalled);
    let out = state.packet_out(due, stalled);
    assert(ready.pcr_pid == state.pcr_pid && ready.pcr_pid_cc == state.pcr_pid_cc);
    assert(ready.capacity == state.capacity);
    assert(sent.push(out).drop_last() =~= sent);
    lemma_inserted_header(0, 0, 0);
    lemma_what_is_inserted(0, 0, 0);
    if state.pcr_pid is None {
        assert(unclocked(ready)) by {
            if let Some(grid) = state.grid {
                assert(grid.placed.skip(0) =~= grid.placed);
            }
        }
    }
    match ready.insertion(stalled) {
        Some(pcr) => {
            let pid = ready.pcr_pid->Some_0;
            lemma_inserted_header(pid, ready.pcr_pid_cc, pcr as int);
            lemma_what_is_inserted(pid, ready.pcr_pid_cc, pcr as int);
            assert(pid_of(out) == pid);
            assert(next.pcr_pid_cc == state.pcr_pid_cc);
            lemma_clocked_on_some(sent, pid);
        },
        None => {
            if ready.deferred.len() > 0 {
                let packet = ready.deferred.first();
                lemma_content_keeps_its_pcr(ready, packet);
                lemma_content_keeps_its_header(ready, packet);
            }
        },
    }
}

/// A PID that has carried a PCR has carried a packet.
proof fn lemma_clocked_on_some(packets: Seq<Seq<u8>>, pid: u16)
    ensures
        clocked_on(packets, pid) ==> last_on(packets, pid) is Some && clocked_by(packets),
    decreases packets.len(),
{
    if packets.len() > 0 {
        lemma_clocked_on_some(packets.drop_last(), pid);
    }
}

/// One more packet.
proof fn lemma_one_more(
    sent: Seq<Seq<u8>>,
    slots: Seq<Option<Seq<u8>>>,
    pid: Option<u16>,
    out: Seq<u8>,
    slot: Option<Seq<u8>>,
)
    requires
        counters_hold(sent, slots, pid),
        slot is None && pid_of(out) != 0x1fff ==> pid == Some(pid_of(out)) && repeats_the_counter(
            sent,
            out,
        ),
    ensures
        counters_hold(sent.push(out), slots.push(slot), pid),
{
    let (more, longer) = (sent.push(out), slots.push(slot));
    assert forall|i: int|
        #![trigger more[i]]
        0 <= i < more.len() && longer[i] is None && pid_of(more[i]) != 0x1fff implies pid == Some(
        pid_of(more[i]),
    ) && repeats_the_counter(more.take(i), more[i]) by {
        assert(more.take(i) =~= sent.take(i));
        if i < sent.len() {
            assert(more[i] == sent[i] && longer[i] == slots[i]);
        } else {
            assert(sent.take(i) =~= sent);
        }
    }
}

/// `n` slots.
#[verifier::spinoff_prover]
proof fn lemma_slots_keep_count(
    state: State,
    sent: Seq<Seq<u8>>,
    slots: Seq<Option<Seq<u8>>>,
    n: nat,
    due: u64,
    stalled: bool,
)
    requires
        keeps_count(state, sent),
        counters_hold(sent, slots, state.pcr_pid),
    ensures
        ({
            let next = state.packets_sent(n, due, stalled);
            let all = sent + slots_out(state, n, due, stalled);
            let every = slots + carried_in(state, n, due, stalled);
            &&& next.pcr_pid == state.pcr_pid
            &&& keeps_count(next, all)
            &&& counters_hold(all, every, state.pcr_pid)
        }),
    decreases n,
{
    if n == 0 {
        assert(sent + slots_out(state, n, due, stalled) =~= sent);
        assert(slots + carried_in(state, n, due, stalled) =~= slots);
    } else {
        let p = (n - 1) as nat;
        let before = state.packets_sent(p, due, stalled);
        let so_far = sent + slots_out(state, p, due, stalled);
        let marked = slots + carried_in(state, p, due, stalled);
        let out = before.packet_out(due, stalled);
        let slot = carried(before, due, stalled);
        lemma_slots_keep_count(state, sent, slots, p, due, stalled);
        lemma_slot_keeps_count(before, so_far, due, stalled);
        lemma_one_more(so_far, marked, state.pcr_pid, out, slot);
        assert(sent + slots_out(state, n, due, stalled) =~= so_far.push(out));
        assert(slots + carried_in(state, n, due, stalled) =~= marked.push(slot));
    }
}

/// The PID of the first of `packets` to carry a PCR.
pub open spec fn first_clocked_pid(packets: Seq<Seq<u8>>) -> Option<u16>
    decreases packets.len(),
{
    if packets.len() == 0 {
        None
    } else {
        match first_clocked_pid(packets.drop_last()) {
            Some(pid) => Some(pid),
            None => if pcr_of(packets.last()) is Some {
                Some(pid_of(packets.last()))
            } else {
                None
            },
        }
    }
}

/// A packet of content taken on.
#[verifier::spinoff_prover]
#[verifier::rlimit(40)]
proof fn lemma_enqueue_keeps_count(
    state: State,
    sent: Seq<Seq<u8>>,
    packet: Seq<u8>,
    now: Nanos,
)
    requires
        keeps_count(state, sent),
        pid_of(packet) != NULL_PID,
    ensures
        keeps_count(state.enqueued(packet, now), sent),
        state.enqueued(packet, now).pcr_pid == (match state.pcr_pid {
            Some(pid) => Some(pid),
            None => if pcr_of(packet) is Some {
                Some(pid_of(packet))
            } else {
                None
            },
        }),
{
    let ready = state.noted(packet, now);
    let next = state.enqueued(packet, now);
    assert(ready.last_pcr_index == state.last_pcr_index);
    assert(ready.pcr_pid_cc == state.pcr_pid_cc);
    assert(ready.capacity >= state.capacity);
    assert(state.grid is Some <==> ready.grid is Some);
    assert(next.pcr_pid == ready.pcr_pid && next.pcr_pid_cc == ready.pcr_pid_cc);
    if next.pcr_pid is None {
        assert(pcr_of(packet) is None);
        assert(unclocked(state));
        assert(ready.deferred == state.deferred && ready.buffer == state.buffer);
        match ready.grid {
            Some(grid) => {
                assert(grid.pushed(packet, now) == grid);
                assert(next.deferred == state.deferred && next.buffer == state.buffer);
                assert(next.last_pcr_index is None);
            },
            None => {
                assert(next.deferred == state.deferred);
                assert(next.buffer == joined(state.buffer, ready.capacity, packet));
                lemma_joined_unclocked(state.buffer, ready.capacity, packet);
            },
        }
        assert(unclocked(next));
    } else if state.pcr_pid is None {
        let pid = pid_of(packet);
        lemma_clocked_on_some(sent, pid);
        assert(pid < 0x1fff);
    }
}

/// A call that sends nothing.
#[verifier::spinoff_prover]
#[verifier::rlimit(40)]
proof fn lemma_call_keeps_count(state: State, call: Call, sent: Seq<Seq<u8>>)
    requires
        keeps_count(state, sent),
        !(call is EmitDatagram),
    ensures
        keeps_count(after_call(state, call), sent),
        !(call is Enqueue) ==> after_call(state, call).pcr_pid == state.pcr_pid,
        call matches Call::Enqueue(packet, _) ==> after_call(state, call).pcr_pid == (
        if pid_of(packet) == NULL_PID {
            state.pcr_pid
        } else {
            match state.pcr_pid {
                Some(pid) => Some(pid),
                None => if pcr_of(packet) is Some {
                    Some(pid_of(packet))
                } else {
                    None
                },
            }
        }),
{
    reveal(after_call);
    match call {
        Call::Enqueue(packet, now) => {
            if pid_of(packet) != NULL_PID {
                lemma_enqueue_keeps_count(state, sent, packet, now);
            }
        },
        _ => {},
    }
}

/// What precedes a datagram.
#[verifier::spinoff_prover]
proof fn lemma_opening_keeps_count(state: State, now: Nanos, sent: Seq<Seq<u8>>)
    requires
        keeps_count(state, sent),
    ensures
        keeps_count(state.opened(now), sent),
        state.opened(now).pcr_pid == state.pcr_pid,
{
    assert(keeps_count(state.caught_up(now), sent));
}

/// Knowing a PID only adds to what holds.
proof fn lemma_learning_a_pid(
    sent: Seq<Seq<u8>>,
    slots: Seq<Option<Seq<u8>>>,
    before: Option<u16>,
    after: Option<u16>,
)
    requires
        counters_hold(sent, slots, before),
        before is Some ==> after == before,
    ensures
        counters_hold(sent, slots, after),
{
}

/// Any calls.
#[verifier::spinoff_prover]
proof fn lemma_calls_keep_count(state: State, calls: Seq<Call>)
    requires
        keeps_count(state, Seq::empty()),
        state.pcr_pid is None,
    ensures
        ({
            let sent = sent_by(state, calls);
            let next = after_calls(state, calls);
            &&& keeps_count(next, sent)
            &&& next.pcr_pid == first_clocked_pid(taken_on(calls))
            &&& counters_hold(sent, carried_by(state, calls), next.pcr_pid)
        }),
    decreases calls.len(),
{
    if calls.len() > 0 {
        let before = after_calls(state, calls.drop_last());
        let next = after_calls(state, calls);
        let sent = sent_by(state, calls.drop_last());
        let slots = carried_by(state, calls.drop_last());
        lemma_calls_keep_count(state, calls.drop_last());
        match calls.last() {
            Call::EmitDatagram(now) => {
                let open = before.opened(now);
                lemma_opening_keeps_count(before, now, sent);
                lemma_slots_keep_count(
                    open,
                    sent,
                    slots,
                    before.per_datagram as nat,
                    open.media.owed(now),
                    open.stalled,
                );
                assert(after_call(before, calls.last()) == before.emitted(now)) by {
                    reveal(after_call);
                }
                assert(sent_by(state, calls) == sent + slots_of(before, now));
            },
            _ => {
                lemma_call_keeps_count(before, calls.last(), sent);
                lemma_learning_a_pid(sent, slots, before.pcr_pid, next.pcr_pid);
                if let Call::Enqueue(packet, _) = calls.last() {
                    if pid_of(packet) != NULL_PID {
                        let taken = taken_on(calls.drop_last());
                        assert(taken.push(packet).drop_last() =~= taken);
                    }
                }
            },
        }
    }
}

/// The last packet on a PID is the one behind which no other is.
proof fn lemma_nearest_is_last(packets: Seq<Seq<u8>>, pid: u16, at: int)
    requires
        0 <= at < packets.len(),
        pid_of(packets[at]) == pid,
        forall|k: int| at < k < packets.len() ==> pid_of(#[trigger] packets[k]) != pid,
    ensures
        last_on(packets, pid) == Some(packets[at]),
    decreases packets.len(),
{
    if at < packets.len() - 1 {
        assert(pid_of(packets[packets.len() - 1]) != pid);
        lemma_nearest_is_last(packets.drop_last(), pid, at);
    }
}

/// A PCR on a PID is one on it.
proof fn lemma_clocked_by_one(packets: Seq<Seq<u8>>, pid: u16, at: int)
    requires
        0 <= at < packets.len(),
        pid_of(packets[at]) == pid,
        pcr_of(packets[at]) is Some,
    ensures
        clocked_on(packets, pid),
    decreases packets.len(),
{
    if at < packets.len() - 1 {
        lemma_clocked_by_one(packets.drop_last(), pid, at);
    }
}

/// An inserted PCR does not advance the continuity counter: whatever is called on a new
/// scheduler, a packet that it puts out of its own, on a PID that has carried a PCR,
/// has in the low four bits of its fourth octet the counter of the nearest packet
/// before it on that PID, be that content or another it inserted.
pub proof fn law_an_inserted_pcr_repeats_the_counter(
    config: Config,
    calls: Seq<Call>,
    clocked: int,
    before: int,
    at: int,
)
    requires
        ({
            let sent = sent_by(State::initial(config), calls);
            let slots = carried_by(State::initial(config), calls);
            &&& 0 <= clocked <= before < at < sent.len()
            &&& slots[at] is None
            &&& pid_of(sent[at]) != 0x1fff
            &&& pid_of(sent[clocked]) == pid_of(sent[at])
            &&& pcr_of(sent[clocked]) is Some
            &&& pid_of(sent[before]) == pid_of(sent[at])
            &&& forall|k: int| before < k < at ==> pid_of(#[trigger] sent[k]) != pid_of(sent[at])
        }),
    ensures
        ({
            let sent = sent_by(State::initial(config), calls);
            sent[at][3] as int % 16 == sent[before][3] as int % 16
        }),
{
    let state = State::initial(config);
    let sent = sent_by(state, calls);
    let slots = carried_by(state, calls);
    let pid = pid_of(sent[at]);
    lemma_calls_keep_count(state, calls);
    let earlier = sent.take(at);
    assert(earlier[clocked] == sent[clocked] && earlier[before] == sent[before]);
    assert forall|k: int| before < k < earlier.len() implies pid_of(#[trigger] earlier[k])
        != pid by {
        assert(earlier[k] == sent[k]);
    }
    lemma_clocked_by_one(earlier, pid, clocked);
    lemma_nearest_is_last(earlier, pid, before);
    assert(repeats_the_counter(sent.take(at), sent[at]));
}

/// Everything inserted is on one PID, the one that the first PCR to arrive was on.
pub proof fn law_pcrs_are_inserted_on_the_first_pcr_pid(
    config: Config,
    calls: Seq<Call>,
    first: int,
    at: int,
)
    requires
        ({
            let sent = sent_by(State::initial(config), calls);
            let slots = carried_by(State::initial(config), calls);
            let taken = taken_on(calls);
            &&& 0 <= at < sent.len()
            &&& slots[at] is None
            &&& pid_of(sent[at]) != 0x1fff
            &&& 0 <= first < taken.len()
            &&& pcr_of(taken[first]) is Some
            &&& forall|k: int| 0 <= k < first ==> pcr_of(#[trigger] taken[k]) is None
        }),
    ensures
        pid_of(sent_by(State::initial(config), calls)[at]) == pid_of(taken_on(calls)[first]),
{
    let sent = sent_by(State::initial(config), calls);
    lemma_calls_keep_count(State::initial(config), calls);
    lemma_first_clocked(taken_on(calls), first);
    assert(pid_of(sent[at]) != 0x1fff);
}

/// The first PCR is the one before which there is none.
proof fn lemma_first_clocked(packets: Seq<Seq<u8>>, first: int)
    requires
        0 <= first < packets.len(),
        pcr_of(packets[first]) is Some,
        forall|k: int| 0 <= k < first ==> pcr_of(#[trigger] packets[k]) is None,
    ensures
        first_clocked_pid(packets) == Some(pid_of(packets[first])),
    decreases packets.len(),
{
    let shorter = packets.drop_last();
    if first < packets.len() - 1 {
        lemma_first_clocked(shorter, first);
    } else {
        lemma_none_clocked(shorter);
    }
}

/// Without a PCR there is none first.
proof fn lemma_none_clocked(packets: Seq<Seq<u8>>)
    requires
        forall|k: int| 0 <= k < packets.len() ==> pcr_of(#[trigger] packets[k]) is None,
    ensures
        first_clocked_pid(packets) is None,
    decreases packets.len(),
{
    if packets.len() > 0 {
        lemma_none_clocked(packets.drop_last());
        assert(pcr_of(packets[packets.len() - 1]) is None);
    }
}

/// An inserted packet has no payload: it starts with the sync byte, says that it has an
/// adaptation field alone, as long as the packet, with the PCR flag and no other set,
/// and is padded out with ones. Stuffing is the other way about: a payload of ones on
/// PID 0x1fff, with no adaptation field.
pub proof fn law_what_is_put_in_is_well_formed(pid: u16, cc: u8, ticks: int)
    requires
        pid <= 0x1fff,
    ensures
        ({
            let b = pcr_only_bytes(pid, cc, ticks);
            &&& b.len() == 188
            &&& b[0] == 0x47
            &&& b[1] * 256 + b[2] == pid
            &&& b[3] == 32 + cc as int % 16
            &&& b[4] == 183
            &&& b[5] == 16
            &&& forall|i: int| 12 <= i < 188 ==> #[trigger] b[i] == 255
        }),
        ({
            let b = null_bytes();
            &&& b.len() == 188
            &&& b[0] == 0x47
            &&& b[1] * 256 + b[2] == 0x1fff
            &&& b[3] == 16
            &&& forall|i: int| 4 <= i < 188 ==> #[trigger] b[i] == 255
        }),
{
}

} // verus!
