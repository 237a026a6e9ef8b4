//! How legs come to send the same, wherever each of them started.
//!
//! What a leg puts in a slot is what the grid says belongs there, as long as the
//! source repeats its PCR often enough that the leg has none of its own to insert. So
//! two legs agree in every slot that both of them send and on which their grids agree,
//! whether they started together, apart, or one of them late. Where the source is
//! sparser than that, they fall in step over the first of its PCRs that both of them
//! carry, and from there on insert the same.

use vstd::prelude::*;

use crate::arith::{beyond, lasting, Nanos};
use crate::config::{Clocking, Config};
use crate::laws::on_the_wire;
use crate::null_insertion::{null_bytes, NULL_PID};
use crate::output::Framing;
use crate::packet::pid_of;
use crate::pair::{
    added, after_event, ahead_by, all_from, datagrams, future, keeps_up, lemma_arrival,
    lemma_arrival_future, lemma_datagram, lemma_datagram_future, lemma_future, lemma_in_time,
    lemma_push, received, running, sent, settled, Event,
};
use crate::pcr::{
    pcr_distance, pcr_of, restamped, ticks_nanos, PCR_DISCONTINUITY_GAP, PCR_WRAP_TICKS,
};
use crate::schedule::State;
use crate::slot::SlotMap;
use crate::stream_grid::{
    extends, landed, law_a_late_leg_lands_on_the_running_grid, lemma_extension_keeps_overdue,
    lemma_overdue_is_a_prefix, overdue, reads_plainly, Placement,
};

verus! {

/// The packet that belongs in `slot`, of those placed on `line`.
pub open spec fn due_in(line: Seq<(u64, Seq<u8>)>, slot: u64) -> Option<Seq<u8>> {
    let rest = line.skip(overdue(line, slot) as int);
    if rest.len() > 0 && rest[0].0 == slot {
        Some(rest[0].1)
    } else {
        None
    }
}

/// What goes out in `slot`: the packet that belongs there, its PCR that of the slot,
/// or stuffing.
pub open spec fn belonging(map: SlotMap, line: Seq<(u64, Seq<u8>)>, slot: u64) -> Seq<u8> {
    match due_in(line, slot) {
        Some(packet) => if pcr_of(packet) is Some {
            restamped(packet, map.pcr(slot) as int % PCR_WRAP_TICKS as int, false)
        } else {
            packet
        },
        None => null_bytes(),
    }
}

/// Whether two lines hold the same for every slot from `slot` on.
pub open spec fn agree_from(
    line: Seq<(u64, Seq<u8>)>,
    other: Seq<(u64, Seq<u8>)>,
    slot: u64,
) -> bool {
    forall|t: u64| t >= slot ==> #[trigger] due_in(line, t) == due_in(other, t)
}

/// Everything that is on a leg's grid, or will be over `events`.
pub open spec fn line_of(leg: State, events: Seq<Event>) -> Seq<(u64, Seq<u8>)> {
    leg.grid->Some_0.placed + future(leg.grid->Some_0, received(events))
}

/// What goes out in the `n` slots from `slot` on.
pub open spec fn run_of(map: SlotMap, line: Seq<(u64, Seq<u8>)>, slot: u64, n: nat) -> Seq<u8>
    decreases n,
{
    if n == 0 {
        Seq::empty()
    } else {
        let p = (n - 1) as nat;
        run_of(map, line, slot, p) + belonging(map, line, (slot + p) as u64)
    }
}

/// What `leg` puts on the wire at `slot` where `line` is what belongs in its slots: the
/// datagram, and the number it goes out under.
pub open spec fn datagram_at(leg: State, line: Seq<(u64, Seq<u8>)>, slot: u64) -> (
    Option<Framing>,
    Seq<u8>,
) {
    (
        State { slot, ..leg }.framing(),
        run_of(leg.grid->Some_0.map, line, slot, leg.per_datagram as nat),
    )
}

/// A leg with nothing held back and nothing to flag, that regenerates its PCR.
pub open spec fn undisturbed(leg: State) -> bool {
    &&& leg.regen matches Some(regen) && !regen.flag_next
    &&& leg.deferred.len() == 0
}

/// Whether the slot that a leg is at calls for no PCR of its own.
pub open spec fn inserts_nothing(leg: State, due: u64) -> bool {
    leg.admitted(leg.media.released < due).insertion(false) is None
}

/// Whether none of `n` slots calls for a PCR of the leg's own.
pub open spec fn inserts_none(leg: State, n: nat, due: u64) -> bool {
    forall|i: nat| i < n ==> inserts_nothing(#[trigger] leg.packets_sent(i, due, false), due)
}

/// Whether no slot that a leg sends over `events` calls for a PCR of its own.
spec fn never_inserts(leg: State, events: Seq<Event>) -> bool
    decreases events.len(),
{
    events.len() > 0 ==> {
        &&& events[0] matches Event::Datagram(now) ==> inserts_none(
            leg.opened(now),
            leg.per_datagram as nat,
            leg.opened(now).media.owed(now),
        )
        &&& never_inserts(after_event(leg, events[0]), events.drop_first())
    }
}

/// Whether `later` is what is left of `line` from its `m`th place on, all before it
/// being of slots before `slot`.
spec fn left_at(
    line: Seq<(u64, Seq<u8>)>,
    later: Seq<(u64, Seq<u8>)>,
    slot: int,
    m: int,
) -> bool {
    &&& 0 <= m <= line.len()
    &&& later == line.skip(m)
    &&& forall|i: int| 0 <= i < m ==> (#[trigger] line[i]).0 < slot
}

/// Whether `later` is what is left of `line` once the slots before `slot` have gone.
spec fn left_from(line: Seq<(u64, Seq<u8>)>, later: Seq<(u64, Seq<u8>)>, slot: int) -> bool {
    exists|m: int| left_at(line, later, slot, m)
}

/// What belongs in a slot does not depend on what belonged in earlier ones.
proof fn lemma_earlier_slots_do_not_matter(line: Seq<(u64, Seq<u8>)>, m: int, slot: u64)
    requires
        0 <= m <= line.len(),
        forall|i: int| 0 <= i < m ==> (#[trigger] line[i]).0 < slot,
    ensures
        overdue(line, slot) == m + overdue(line.skip(m), slot),
        due_in(line.skip(m), slot) == due_in(line, slot),
    decreases m,
{
    if m == 0 {
        assert(line.skip(0) =~= line);
    } else {
        let rest = line.drop_first();
        assert forall|i: int| 0 <= i < m - 1 implies (#[trigger] rest[i]).0 < slot by {
            assert(rest[i] == line[i + 1]);
        }
        lemma_earlier_slots_do_not_matter(rest, m - 1, slot);
        assert(rest.skip(m - 1) =~= line.skip(m));
        assert(line[0].0 < slot);
        lemma_overdue_is_a_prefix(line.skip(m), slot);
    }
    lemma_overdue_is_a_prefix(line.skip(m), slot);
    let k = overdue(line.skip(m), slot) as int;
    assert(line.skip(m).skip(k) =~= line.skip(m + k));
}

/// The same of what is left of a line.
proof fn lemma_left_from_agrees(
    line: Seq<(u64, Seq<u8>)>,
    later: Seq<(u64, Seq<u8>)>,
    from: int,
    slot: u64,
)
    requires
        left_from(line, later, from),
        from <= slot,
    ensures
        due_in(later, slot) == due_in(line, slot),
{
    let m = choose|m: int| left_at(line, later, from, m);
    lemma_earlier_slots_do_not_matter(line, m, slot);
}

/// What is left of what is left.
proof fn lemma_left_from_in_turn(
    line: Seq<(u64, Seq<u8>)>,
    mid: Seq<(u64, Seq<u8>)>,
    later: Seq<(u64, Seq<u8>)>,
    first: int,
    slot: int,
)
    requires
        left_from(line, mid, first),
        left_from(mid, later, slot),
        first <= slot,
    ensures
        left_from(line, later, slot),
{
    let m = choose|m: int| left_at(line, mid, first, m);
    let k = choose|k: int| left_at(mid, later, slot, k);
    assert(line.skip(m).skip(k) =~= line.skip(m + k));
    assert forall|i: int| 0 <= i < m + k implies (#[trigger] line[i]).0 < slot by {
        if i >= m {
            assert(mid[i - m] == line[i]);
        }
    }
    assert(left_at(line, later, slot, m + k));
}

/// Later slots behind do not change what belongs in a slot.
proof fn lemma_later_slots_do_not_matter(
    placed: Seq<(u64, Seq<u8>)>,
    more: Seq<(u64, Seq<u8>)>,
    slot: u64,
)
    requires
        slot < u64::MAX,
        all_from(more, (slot + 1) as u64),
    ensures
        overdue(placed + more, slot) == overdue(placed, slot),
        due_in(placed + more, slot) == due_in(placed, slot),
{
    let line = placed + more;
    let from = (slot + 1) as u64;
    assert(line.take(placed.len() as int) =~= placed);
    assert forall|i: int| placed.len() <= i < line.len() implies (#[trigger] line[i]).0 >= from by {
        assert(line[i] == more[i - placed.len()]);
    }
    assert(extends(placed, line, from));
    lemma_extension_keeps_overdue(placed, line, from, slot);
    lemma_overdue_is_a_prefix(placed, slot);
    let k = overdue(placed, slot) as int;
    if k < placed.len() {
        assert(line.skip(k)[0] == placed.skip(k)[0]);
    } else if more.len() > 0 {
        assert(line.skip(k)[0] == more[0]);
    }
}

/// What an undisturbed leg sends in a slot is what belongs there.
#[verifier::spinoff_prover]
proof fn lemma_undisturbed_slot(leg: State, more: Seq<(u64, Seq<u8>)>, due: u64)
    requires
        leg.grid is Some,
        undisturbed(leg),
        leg.slot < u64::MAX,
        all_from(more, (leg.slot + 1) as u64),
        inserts_nothing(leg, due),
    ensures
        ({
            let next = leg.packet_sent(due, false);
            let line = leg.grid->Some_0.placed + more;
            &&& leg.packet_out(due, false) == belonging(leg.grid->Some_0.map, line, leg.slot)
            &&& undisturbed(next)
            &&& next.grid is Some
            &&& next.grid->Some_0.map == leg.grid->Some_0.map
            &&& next.slot == leg.slot + 1
            &&& left_from(line, next.grid->Some_0.placed + more, leg.slot + 1)
        }),
{
    let grid = leg.grid->Some_0;
    let slot = leg.slot;
    let line = grid.placed + more;
    let ready = leg.admitted(leg.media.released < due);
    let next = leg.packet_sent(due, false);
    lemma_later_slots_do_not_matter(grid.placed, more, slot);
    assert(due_in(grid.placed, slot) == grid.due_at(slot));
    lemma_overdue_is_a_prefix(grid.placed, slot);
    let k = overdue(grid.placed, slot) as int;
    let m = k + if grid.due_at(slot) is Some {
        1int
    } else {
        0int
    };
    assert(next.grid == Some(grid.taken(slot)));
    assert(grid.taken(slot).placed =~= grid.placed.skip(m));
    assert(next.grid->Some_0.placed + more =~= line.skip(m));
    assert forall|i: int| 0 <= i < m implies (#[trigger] line[i]).0 < slot + 1 by {
        assert(line[i] == grid.placed[i]);
        if i == k {
            assert(grid.placed.skip(k)[0] == grid.placed[k]);
        }
    }
    assert(left_at(line, next.grid->Some_0.placed + more, slot + 1, m));
    match grid.due_at(slot) {
        Some(packet) => {
            assert(ready.deferred =~= seq![packet]);
            assert(next.deferred.len() == 0);
        },
        None => {
            assert(ready.deferred.len() == 0);
        },
    }
}

/// The same of `n` slots.
#[verifier::spinoff_prover]
proof fn lemma_undisturbed_slots(leg: State, more: Seq<(u64, Seq<u8>)>, n: nat, due: u64)
    requires
        leg.grid is Some,
        undisturbed(leg),
        leg.slot + n <= u64::MAX,
        all_from(more, (leg.slot + n) as u64),
        inserts_none(leg, n, due),
    ensures
        ({
            let next = leg.packets_sent(n, due, false);
            let line = leg.grid->Some_0.placed + more;
            &&& leg.packets_out(n, due, false) == run_of(
                leg.grid->Some_0.map,
                line,
                leg.slot,
                n,
            )
            &&& undisturbed(next)
            &&& next.grid is Some
            &&& next.grid->Some_0.map == leg.grid->Some_0.map
            &&& next.slot == leg.slot + n
            &&& left_from(line, next.grid->Some_0.placed + more, leg.slot + n)
        }),
    decreases n,
{
    let line = leg.grid->Some_0.placed + more;
    if n == 0 {
        assert(line.skip(0) =~= line);
        assert(left_at(line, line, leg.slot as int, 0));
    } else {
        let p = (n - 1) as nat;
        let before = leg.packets_sent(p, due, false);
        let mid = before.grid->Some_0.placed + more;
        let slot = (leg.slot + p) as u64;
        lemma_undisturbed_slots(leg, more, p, due);
        lemma_undisturbed_slot(before, more, due);
        let next = before.packet_sent(due, false);
        lemma_left_from_agrees(line, mid, leg.slot + p, slot);
        lemma_left_from_in_turn(
            line,
            mid,
            next.grid->Some_0.placed + more,
            leg.slot + p,
            leg.slot + n,
        );
    }
}

/// Where two lines agree from `slot` on, so does what goes out there.
proof fn lemma_same_run(
    map: SlotMap,
    line: Seq<(u64, Seq<u8>)>,
    other: Seq<(u64, Seq<u8>)>,
    slot: u64,
    n: nat,
)
    requires
        slot + n <= u64::MAX,
        agree_from(line, other, slot),
    ensures
        run_of(map, line, slot, n) == run_of(map, other, slot, n),
    decreases n,
{
    if n > 0 {
        lemma_same_run(map, line, other, slot, (n - 1) as nat);
        assert(due_in(line, (slot + n - 1) as u64) == due_in(other, (slot + n - 1) as u64));
    }
}

/// A datagram of an undisturbed leg is what belongs in its slots, and leaves the line
/// from there on.
#[verifier::spinoff_prover]
proof fn lemma_undisturbed_datagram(leg: State, now: Nanos, events: Seq<Event>)
    requires
        running(leg),
        keeps_up(leg, events),
        undisturbed(leg),
        never_inserts(leg, events),
        events.len() > 0,
        events[0] == Event::Datagram(now),
    ensures
        ({
            let next = leg.emitted(now);
            let rest = events.drop_first();
            let line = line_of(leg, events);
            &&& running(next)
            &&& undisturbed(next)
            &&& alike(next, leg)
            &&& next.slot == leg.slot + leg.per_datagram
            &&& (leg.caught_up(now).framing(), leg.datagram(now)) == datagram_at(
                leg,
                line,
                leg.slot,
            )
            &&& left_from(line, line_of(next, rest), next.slot as int)
        }),
{
    let n = leg.per_datagram as nat;
    let open = leg.opened(now);
    let due = open.media.owed(now);
    let next = leg.emitted(now);
    let rest = events.drop_first();
    let more = future(leg.grid->Some_0, received(events));
    lemma_datagram_future(leg, now, events);
    lemma_in_time(next, rest);
    assert(!open.stalled);
    assert(open.grid == leg.grid && open.slot == leg.slot);
    assert(undisturbed(open));
    lemma_undisturbed_slots(open, more, n, due);
    assert(State { slot: leg.slot, ..leg } == leg);
    lemma_shape_kept(open, n, due);
}

/// Whether two legs number and fill their datagrams in the same way.
pub open spec fn alike(one: State, other: State) -> bool {
    &&& one.per_datagram == other.per_datagram
    &&& one.sequence_seed == other.sequence_seed
    &&& one.grid is Some && other.grid is Some
    &&& one.grid->Some_0.map == other.grid->Some_0.map
}

/// Sending changes nothing of that.
proof fn lemma_shape_kept(leg: State, n: nat, due: u64)
    requires
        leg.grid is Some,
    ensures
        alike(leg.packets_sent(n, due, false), leg),
    decreases n,
{
    if n > 0 {
        lemma_shape_kept(leg, (n - 1) as nat, due);
    }
}

/// Every datagram that a leg sends is what belongs in its slots, where none calls for a
/// PCR of its own.
#[verifier::spinoff_prover]
#[verifier::rlimit(40)]
proof fn lemma_sent_as_placed(leg: State, events: Seq<Event>)
    requires
        running(leg),
        keeps_up(leg, events),
        undisturbed(leg),
        never_inserts(leg, events),
    ensures
        leg.slot + datagrams(events) * leg.per_datagram <= u64::MAX,
        sent(leg, events).len() == datagrams(events),
        forall|j: int|
            0 <= j < datagrams(events) ==> #[trigger] sent(leg, events)[j] == datagram_at(
                leg,
                line_of(leg, events),
                (leg.slot + j * leg.per_datagram) as u64,
            ),
    decreases events.len(),
{
    let n = leg.per_datagram as int;
    if events.len() > 0 {
        let next = after_event(leg, events[0]);
        let rest = events.drop_first();
        let line = line_of(leg, events);
        match events[0] {
            Event::Arrival(packet, at) => {
                lemma_arrival(leg, packet, at);
                lemma_arrival_future(leg, packet, at, events);
                assert(line_of(next, rest) =~= line);
                lemma_sent_as_placed(next, rest);
                assert(alike(next, leg));
                assert forall|j: int| 0 <= j < datagrams(events) implies #[trigger] sent(
                    leg,
                    events,
                )[j] == datagram_at(leg, line, (leg.slot + j * n) as u64) by {
                    assert(sent(leg, events)[j] == sent(next, rest)[j]);
                }
            },
            Event::Datagram(now) => {
                lemma_undisturbed_datagram(leg, now, events);
                lemma_sent_as_placed(next, rest);
                let left = line_of(next, rest);
                let d = datagrams(rest) as int;
                assert((d + 1) * n == d * n + n) by (nonlinear_arith);
                assert(0 * n == 0);
                assert forall|j: int| 0 <= j < datagrams(events) implies #[trigger] sent(
                    leg,
                    events,
                )[j] == datagram_at(leg, line, (leg.slot + j * n) as u64) by {
                    if j > 0 {
                        assert(j * n == (j - 1) * n + n) by (nonlinear_arith);
                        assert(j * n + n <= (d + 1) * n && (j - 1) * n >= 0) by (nonlinear_arith)
                            requires
                                1 <= j <= d,
                                n >= 0,
                        ;
                        let slot = (leg.slot + j * n) as u64;
                        assert(sent(leg, events)[j] == sent(next, rest)[j - 1]);
                        assert forall|t: u64| t >= slot implies #[trigger] due_in(left, t)
                            == due_in(line, t) by {
                            lemma_left_from_agrees(line, left, next.slot as int, t);
                        }
                        lemma_same_run(leg.grid->Some_0.map, left, line, slot, n as nat);
                    }
                }
            },
        }
    }
}

// --- often enough -------------------------------------------------------------------------

/// Whether a packet carries a PCR.
pub open spec fn has_pcr(packet: Option<Seq<u8>>) -> bool {
    packet matches Some(packet) && pcr_of(packet) is Some
}

/// The slot of the last PCR before `slot`, where `first` is that of the last one before
/// `from`.
pub open spec fn last_pcr(
    line: Seq<(u64, Seq<u8>)>,
    first: Option<u64>,
    from: u64,
    slot: u64,
) -> Option<u64>
    decreases slot,
{
    if slot <= from {
        first
    } else if has_pcr(due_in(line, (slot - 1) as u64)) {
        Some((slot - 1) as u64)
    } else {
        last_pcr(line, first, from, (slot - 1) as u64)
    }
}

/// Whether the source repeats its PCR often enough over the `n` slots from where `leg`
/// is: each of them holds one, or lies within the repetition limit of the last, or comes
/// before the first.
pub open spec fn repeats_in_time(leg: State, line: Seq<(u64, Seq<u8>)>, n: int) -> bool {
    forall|t: u64|
        leg.slot <= t < leg.slot + n ==> has_pcr(#[trigger] due_in(line, t)) || match last_pcr(
            line,
            leg.last_pcr_index,
            leg.slot,
            t,
        ) {
            Some(last) => beyond(last, t) < leg.pcr_spacing,
            None => true,
        }
}

/// The last PCR before a slot depends on the slots before it alone.
proof fn lemma_last_pcr_in_turn(
    line: Seq<(u64, Seq<u8>)>,
    later: Seq<(u64, Seq<u8>)>,
    first: Option<u64>,
    from: u64,
    mid: u64,
    slot: u64,
)
    requires
        from <= mid <= slot,
        agree_from(line, later, mid),
    ensures
        last_pcr(later, last_pcr(line, first, from, mid), mid, slot) == last_pcr(
            line,
            first,
            from,
            slot,
        ),
    decreases slot,
{
    if slot > mid {
        lemma_last_pcr_in_turn(line, later, first, from, mid, (slot - 1) as u64);
        assert(due_in(line, (slot - 1) as u64) == due_in(later, (slot - 1) as u64));
    }
}

/// Where the source repeats its PCR often enough no slot calls for another.
#[verifier::spinoff_prover]
proof fn lemma_slots_repeat(leg: State, more: Seq<(u64, Seq<u8>)>, n: nat, due: u64)
    requires
        leg.grid is Some,
        undisturbed(leg),
        leg.slot + n <= u64::MAX,
        all_from(more, (leg.slot + n) as u64),
        repeats_in_time(leg, leg.grid->Some_0.placed + more, n as int),
    ensures
        inserts_none(leg, n, due),
        leg.packets_sent(n, due, false).pcr_spacing == leg.pcr_spacing,
        leg.packets_sent(n, due, false).last_pcr_index == last_pcr(
            leg.grid->Some_0.placed + more,
            leg.last_pcr_index,
            leg.slot,
            (leg.slot + n) as u64,
        ),
    decreases n,
{
    let line = leg.grid->Some_0.placed + more;
    if n > 0 {
        let p = (n - 1) as nat;
        let slot = (leg.slot + p) as u64;
        let at = leg.packets_sent(p, due, false);
        lemma_slots_repeat(leg, more, p, due);
        lemma_undisturbed_slots(leg, more, p, due);
        lemma_left_from_agrees(line, at.grid->Some_0.placed + more, leg.slot + p, slot);
        lemma_later_slots_do_not_matter(at.grid->Some_0.placed, more, slot);
        let due_now = at.grid->Some_0.due_at(slot);
        assert(due_now == due_in(at.grid->Some_0.placed, slot));
        assert(due_now == due_in(line, slot));
        let ready = at.admitted(at.media.released < due);
        if let Some(packet) = due_now {
            assert(ready.deferred =~= seq![packet]);
        } else {
            assert(ready.deferred.len() == 0);
        }
        assert(inserts_nothing(at, due));
        assert forall|i: nat| i < n implies inserts_nothing(
            #[trigger] leg.packets_sent(i, due, false),
            due,
        ) by {
            if i == p {
            } else {
                assert(i < p);
            }
        }
    }
}

/// The same of a whole run.
#[verifier::spinoff_prover]
proof fn lemma_never_inserts(leg: State, events: Seq<Event>)
    requires
        running(leg),
        keeps_up(leg, events),
        undisturbed(leg),
        repeats_in_time(leg, line_of(leg, events), datagrams(events) * leg.per_datagram),
    ensures
        never_inserts(leg, events),
    decreases events.len(),
{
    if events.len() > 0 {
        let next = after_event(leg, events[0]);
        let rest = events.drop_first();
        let line = line_of(leg, events);
        match events[0] {
            Event::Arrival(packet, at) => {
                lemma_arrival_in_step(leg, events);
                assert(repeats_in_time(
                    next,
                    line_of(next, rest),
                    datagrams(rest) * next.per_datagram,
                ));
                lemma_never_inserts(next, rest);
            },
            Event::Datagram(now) => {
                lemma_datagram_repeats(leg, now, events);
                lemma_never_inserts(next, rest);
            },
        }
    }
}

/// A datagram without an insertion leaves the source as timely as it was.
#[verifier::spinoff_prover]
proof fn lemma_datagram_repeats(leg: State, now: Nanos, events: Seq<Event>)
    requires
        running(leg),
        keeps_up(leg, events),
        undisturbed(leg),
        repeats_in_time(leg, line_of(leg, events), datagrams(events) * leg.per_datagram),
        events.len() > 0,
        events[0] == Event::Datagram(now),
    ensures
        ({
            let next = leg.emitted(now);
            let rest = events.drop_first();
            let open = leg.opened(now);
            &&& inserts_none(open, leg.per_datagram as nat, open.media.owed(now))
            &&& running(next)
            &&& undisturbed(next)
            &&& repeats_in_time(next, line_of(next, rest), datagrams(rest) * next.per_datagram)
        }),
{
    let n = leg.per_datagram as nat;
    let next = leg.emitted(now);
    let rest = events.drop_first();
    let open = leg.opened(now);
    let due = open.media.owed(now);
    let line = line_of(leg, events);
    let left = line_of(next, rest);
    let more = future(leg.grid->Some_0, received(events));
    let d = datagrams(rest) as int;
    assert((d + 1) * n == d * n + n && d * n >= 0) by (nonlinear_arith)
        requires
            d >= 0,
            n >= 0,
    ;
    lemma_opened(leg, now);
    lemma_datagram_future(leg, now, events);
    lemma_in_time(next, rest);
    assert(repeats_in_time(open, open.grid->Some_0.placed + more, n as int));
    lemma_slots_repeat(open, more, n, due);
    lemma_undisturbed_slots(open, more, n, due);
    lemma_shape_kept(open, n, due);
    assert forall|t: u64| t >= next.slot implies #[trigger] due_in(line, t) == due_in(left, t) by {
        lemma_left_from_agrees(line, left, next.slot as int, t);
    }
    assert forall|t: u64| next.slot <= t < next.slot + d * n implies has_pcr(
        #[trigger] due_in(left, t),
    ) || match last_pcr(left, next.last_pcr_index, next.slot, t) {
        Some(last) => beyond(last, t) < next.pcr_spacing,
        None => true,
    } by {
        lemma_last_pcr_in_turn(line, left, leg.last_pcr_index, leg.slot, next.slot, t);
        assert(due_in(line, t) == due_in(left, t));
    }
}

/// Every datagram that a leg sends is what belongs in its slots: the packets that the
/// grid puts there, stamped for the slot, and stuffing in between. Nothing else goes
/// into it, neither when the content reached the leg nor when the leg started, as long
/// as the source repeats its PCR often enough.
pub proof fn law_a_slot_goes_out_as_the_grid_has_it(leg: State, events: Seq<Event>)
    requires
        sends_freely(leg, events),
    ensures
        leg.slot + datagrams(events) * leg.per_datagram <= u64::MAX,
        sent(leg, events).len() == datagrams(events),
        forall|j: int|
            0 <= j < datagrams(events) ==> #[trigger] sent(leg, events)[j] == datagram_at(
                leg,
                line_of(leg, events),
                (leg.slot + j * leg.per_datagram) as u64,
            ),
{
    lemma_never_inserts(leg, events);
    lemma_sent_as_placed(leg, events);
}

/// A leg that can be told what it sends: it keeps up, starts with nothing held back, and
/// has a source that repeats its PCR often enough.
pub open spec fn sends_freely(leg: State, events: Seq<Event>) -> bool {
    &&& running(leg)
    &&& keeps_up(leg, events)
    &&& undisturbed(leg)
    &&& repeats_in_time(leg, line_of(leg, events), datagrams(events) * leg.per_datagram)
}

// --- starting -----------------------------------------------------------------------------

/// A leg that has yet to send, or is sending, at depths that were pinned.
pub open spec fn listening(leg: State) -> bool {
    &&& leg.grid is Some
    &&& leg.latency is Fixed
    &&& !leg.stalled
}

/// The leg after `events`.
pub open spec fn after_events(leg: State, events: Seq<Event>) -> State
    decreases events.len(),
{
    if events.len() == 0 {
        leg
    } else {
        after_events(after_event(leg, events[0]), events.drop_first())
    }
}

/// Whether a leg only takes content on over `events`, has room for all of it, and reads no
/// silence of its own into a jump of the source clock.
pub open spec fn gathers(leg: State, events: Seq<Event>) -> bool
    decreases events.len(),
{
    events.len() > 0 ==> {
        &&& events[0] matches Event::Arrival(packet, at) && (pid_of(packet) != NULL_PID ==> {
            let grid = leg.grid->Some_0;
            &&& reads_plainly(grid, packet, at)
            &&& grid.placed.len() + added(grid, packet).len() <= grid.capacity
        })
        &&& gathers(after_event(leg, events[0]), events.drop_first())
    }
}

/// What gathering leaves as it was.
pub open spec fn only_gathered(leg: State, next: State) -> bool {
    &&& listening(next)
    &&& alike(next, leg)
    &&& next.regen == leg.regen
    &&& next.deferred == leg.deferred
    &&& next.last_pcr_index == leg.last_pcr_index
    &&& next.pcr_pid_cc == leg.pcr_pid_cc
    &&& next.pcr_spacing == leg.pcr_spacing
}

/// Content taken on goes on the grid, before the first datagram as after it.
proof fn lemma_gathered(leg: State, packet: Seq<u8>, at: Nanos)
    requires
        listening(leg),
    ensures
        only_gathered(leg, leg.enqueued(packet, at)),
        leg.enqueued(packet, at).grid == Some(
            if pid_of(packet) == NULL_PID {
                leg.grid->Some_0
            } else {
                leg.grid->Some_0.pushed(packet, at)
            },
        ),
{
}

/// Gathering moves content from what is to come to what is there.
#[verifier::spinoff_prover]
#[verifier::rlimit(30)]
proof fn lemma_line_gathered(leg: State, events: Seq<Event>, later: Seq<Seq<u8>>)
    requires
        listening(leg),
        gathers(leg, events),
    ensures
        ({
            let next = after_events(leg, events);
            let (a, b) = (leg.grid->Some_0, next.grid->Some_0);
            &&& only_gathered(leg, next)
            &&& b.placed + future(b, later) == a.placed + future(a, received(events) + later)
        }),
    decreases events.len(),
{
    if events.len() == 0 {
        assert(received(events) + later =~= later);
    } else if let Event::Arrival(packet, at) = events[0] {
        let grid = leg.grid->Some_0;
        let next = leg.enqueued(packet, at);
        let rest = events.drop_first();
        let all = received(events) + later;
        lemma_gathered(leg, packet, at);
        if pid_of(packet) == NULL_PID {
            assert(received(events) == received(rest));
        } else {
            assert(received(events) == seq![packet] + received(rest));
            assert(all[0] == packet);
            assert(all.drop_first() =~= received(rest) + later);
            lemma_push(grid, grid, packet, at, 0);
            lemma_future(
                grid.pushed(packet, 0),
                grid.pushed(packet, at),
                received(rest) + later,
            );
            assert(next.grid->Some_0.placed + future(
                next.grid->Some_0,
                received(rest) + later,
            ) =~= grid.placed + future(grid, all));
        }
        lemma_line_gathered(next, rest, later);
    }
}

/// Whether two legs put the same on the wire wherever both send a datagram from `from`
/// on: the same bytes, under the same number.
pub open spec fn send_the_same(
    one: State,
    events: Seq<Event>,
    other: State,
    others: Seq<Event>,
    from: u64,
) -> bool {
    forall|j: int, k: int|
        #![trigger sent(one, events)[j], sent(other, others)[k]]
        0 <= j < datagrams(events) && 0 <= k < datagrams(others) && from <= one.slot + j
            * one.per_datagram == other.slot + k * other.per_datagram ==> sent(one, events)[j]
            == sent(other, others)[k]
}

/// Legs on whose slots the same belongs send the same.
#[verifier::spinoff_prover]
proof fn lemma_same_line(
    one: State,
    events: Seq<Event>,
    other: State,
    others: Seq<Event>,
    from: u64,
)
    requires
        sends_freely(one, events),
        sends_freely(other, others),
        alike(one, other),
        agree_from(line_of(one, events), line_of(other, others), from),
    ensures
        send_the_same(one, events, other, others, from),
{
    let n = one.per_datagram as int;
    let (a, b) = (line_of(one, events), line_of(other, others));
    law_a_slot_goes_out_as_the_grid_has_it(one, events);
    law_a_slot_goes_out_as_the_grid_has_it(other, others);
    assert forall|j: int, k: int|
        #![trigger sent(one, events)[j], sent(other, others)[k]]
        0 <= j < datagrams(events) && 0 <= k < datagrams(others) && from <= one.slot + j * n
            == other.slot + k * n implies sent(one, events)[j] == sent(other, others)[k] by {
        let d = datagrams(events) as int;
        assert(j * n + n <= d * n && j * n >= 0) by (nonlinear_arith)
            requires
                0 <= j < d,
                n >= 0,
        ;
        let slot = (one.slot + j * n) as u64;
        lemma_same_run(one.grid->Some_0.map, a, b, slot, n as nat);
    }
}

/// A new leg, and what it has heard before it starts.
pub open spec fn started_leg(config: Config, heard: Seq<Event>) -> State {
    after_events(State::initial(config), heard)
}

/// Whether a new leg, given what it hears and then the rest, hears all of `packets`,
/// with room for what it hears before it starts.
pub open spec fn hears(
    config: Config,
    heard: Seq<Event>,
    events: Seq<Event>,
    packets: Seq<Seq<u8>>,
) -> bool {
    &&& gathers(State::initial(config), heard)
    &&& received(heard) + received(events) == packets
}

/// What is on the line of a new leg that has started is what the stream puts there.
proof fn lemma_fresh_line(
    config: Config,
    heard: Seq<Event>,
    events: Seq<Event>,
    packets: Seq<Seq<u8>>,
)
    requires
        config.refusal() is None,
        config.clocking == Clocking::Stream,
        hears(config, heard, events, packets),
    ensures
        ({
            let leg = started_leg(config, heard);
            let grid = State::initial(config).grid->Some_0;
            &&& only_gathered(State::initial(config), leg)
            &&& undisturbed(leg)
            &&& line_of(leg, events) == future(grid, packets)
        }),
{
    let fresh = State::initial(config);
    lemma_line_gathered(fresh, heard, received(events));
    assert(fresh.grid->Some_0.placed + future(fresh.grid->Some_0, packets) =~= future(
        fresh.grid->Some_0,
        packets,
    ));
}

/// Two new legs of one configuration send the same: given the same content, each at its
/// own times and started at its own moment, they put the same bytes under the same
/// number into every datagram that both of them send.
pub proof fn law_fresh_legs_send_the_same(
    config: Config,
    packets: Seq<Seq<u8>>,
    heard: Seq<Event>,
    events: Seq<Event>,
    others_heard: Seq<Event>,
    others: Seq<Event>,
)
    requires
        config.refusal() is None,
        config.clocking == Clocking::Stream,
        hears(config, heard, events, packets),
        hears(config, others_heard, others, packets),
        sends_freely(started_leg(config, heard), events),
        sends_freely(started_leg(config, others_heard), others),
    ensures
        send_the_same(
            started_leg(config, heard),
            events,
            started_leg(config, others_heard),
            others,
            0,
        ),
{
    lemma_fresh_line(config, heard, events, packets);
    lemma_fresh_line(config, others_heard, others, packets);
    lemma_same_line(
        started_leg(config, heard),
        events,
        started_leg(config, others_heard),
        others,
        0,
    );
}

// --- joining ------------------------------------------------------------------------------

/// Whether two grids have the same run open, with nothing of an earlier one left over
/// on either.
pub open spec fn abreast(one: Placement, other: Placement) -> bool {
    &&& one.map == other.map
    &&& one.epoch == other.epoch
    &&& one.run == other.run
    &&& one.run.len() > 0
    &&& one.open == other.open
    &&& one.open matches Some((_, slot)) && one.next_free <= slot && other.next_free <= slot
}

/// The slot of the run that a grid has open.
pub open spec fn open_slot(grid: Placement) -> u64 {
    match grid.open {
        Some((_, slot)) => slot,
        None => 0,
    }
}

/// Whether a PCR seen `since` after the open run's lands on the grid as it stands: it is
/// the first, or an ordinary interval on, or as far on as the leg was off the air.
pub open spec fn keeps_the_grid(grid: Placement, pcr: u64, since: Nanos) -> bool {
    match grid.open {
        None => true,
        Some((open_pcr, slot)) => {
            let delta = pcr_distance(open_pcr, pcr);
            &&& delta > 0
            &&& ticks_nanos(delta as int) <= PCR_DISCONTINUITY_GAP || ticks_nanos(delta as int)
                <= lasting(since * 2)
            &&& grid.map.slot(pcr) + grid.epoch >= slot
        },
    }
}

/// Two legs come abreast over one PCR, whatever either has been through: a leg that joins
/// late with the first PCR that it sees, and a leg that was off the air with the first
/// that reaches it again. The PCR lands in the same slot on both grids, and nothing from
/// before it may need that slot.
pub proof fn law_legs_come_abreast(
    one: Placement,
    other: Placement,
    packet: Seq<u8>,
    at: Nanos,
    later: Nanos,
)
    requires
        one.map == other.map,
        one.epoch == other.epoch,
        pcr_of(packet) matches Some(pcr) && keeps_the_grid(one, pcr, one.quiet(at))
            && keeps_the_grid(other, pcr, other.quiet(later)),
        one.pushed(packet, at).next_free <= open_slot(one.pushed(packet, at)),
        other.pushed(packet, later).next_free <= open_slot(other.pushed(packet, later)),
    ensures
        abreast(one.pushed(packet, at), other.pushed(packet, later)),
        open_slot(one.pushed(packet, at)) == landed(
            one.map.slot(pcr_of(packet)->Some_0),
            one.epoch,
            false,
        ).slot,
{
    let pcr = pcr_of(packet)->Some_0;
    let a = one.landing(pcr, one.quiet(at));
    let b = other.landing(pcr, other.quiet(later));
    assert(a.slot == b.slot && a.epoch == one.epoch && b.epoch == other.epoch);
}

/// Grids abreast place what follows alike.
#[verifier::spinoff_prover]
proof fn lemma_abreast(one: Placement, other: Placement, packets: Seq<Seq<u8>>)
    requires
        abreast(one, other),
    ensures
        future(one, packets) == future(other, packets),
    decreases packets.len(),
{
    if packets.len() > 0 {
        let packet = packets[0];
        let (a, b) = (one.pushed(packet, 0), other.pushed(packet, 0));
        match pcr_of(packet) {
            None => {
                lemma_abreast(a, b, packets.drop_first());
            },
            Some(pcr) => {
                let landing = one.landing(pcr, 0);
                assert(one.landing(pcr, one.quiet(0)) == landing);
                assert(other.landing(pcr, other.quiet(0)) == landing);
                assert(!landing.after_silence);
                law_a_late_leg_lands_on_the_running_grid(
                    Placement { epoch: landing.epoch, ..one },
                    Placement { epoch: landing.epoch, ..other },
                    landing.slot,
                );
                assert(settled(a) =~= settled(b));
                lemma_future(a, b, packets.drop_first());
            },
        }
    }
}

/// What belongs in a slot at or after the open run's is yet to be placed.
proof fn lemma_placed_before(grid: Placement, packets: Seq<Seq<u8>>, slot: u64)
    requires
        grid.wf(),
        grid.next_free <= open_slot(grid) <= slot,
        open_slot(grid) < u64::MAX,
    ensures
        due_in(grid.placed + future(grid, packets), slot) == due_in(future(grid, packets), slot),
{
    let m = grid.placed.len() as int;
    let line = grid.placed + future(grid, packets);
    assert forall|i: int| 0 <= i < m implies (#[trigger] line[i]).0 < slot by {
        assert(line[i] == grid.placed[i]);
    }
    lemma_earlier_slots_do_not_matter(line, m, slot);
    assert(line.skip(m) =~= future(grid, packets));
}

/// A leg that joins late sends the same as the one already running, from the first run
/// that it saw whole: given the same content from there on, the two put the same bytes
/// under the same number into every datagram that both of them send, whatever the
/// running leg has been through.
pub proof fn law_a_late_leg_sends_the_same(
    one: State,
    heard: Seq<Event>,
    events: Seq<Event>,
    other: State,
    others_heard: Seq<Event>,
    others: Seq<Event>,
)
    requires
        listening(one),
        listening(other),
        alike(one, other),
        one.grid->Some_0.wf(),
        other.grid->Some_0.wf(),
        abreast(one.grid->Some_0, other.grid->Some_0),
        open_slot(one.grid->Some_0) < u64::MAX,
        gathers(one, heard),
        gathers(other, others_heard),
        received(heard) + received(events) == received(others_heard) + received(others),
        sends_freely(after_events(one, heard), events),
        sends_freely(after_events(other, others_heard), others),
    ensures
        send_the_same(
            after_events(one, heard),
            events,
            after_events(other, others_heard),
            others,
            open_slot(one.grid->Some_0),
        ),
{
    let (a, b) = (one.grid->Some_0, other.grid->Some_0);
    let all = received(heard) + received(events);
    let from = open_slot(a);
    lemma_abreast(a, b, all);
    lemma_line_gathered(one, heard, received(events));
    lemma_line_gathered(other, others_heard, received(others));
    let (one_started, other_started) = (after_events(one, heard), after_events(other, others_heard));
    assert forall|t: u64| t >= from implies #[trigger] due_in(line_of(one_started, events), t)
        == due_in(line_of(other_started, others), t) by {
        lemma_placed_before(a, all, t);
        lemma_placed_before(b, all, t);
    }
    lemma_same_line(one_started, events, other_started, others, from);
}

// --- falling in step ----------------------------------------------------------------------

/// Whether two legs have the same on their grids for every slot before `end` that is
/// still to go out.
spec fn agree_until(one: State, other: State, end: int) -> bool {
    forall|t: u64|
        one.slot <= t < end ==> #[trigger] due_in(one.grid->Some_0.placed, t) == due_in(
            other.grid->Some_0.placed,
            t,
        )
}

/// Whether two legs are about to fill the same slot in the same way, except that each
/// may have its own idea of when the last PCR went out.
pub open spec fn side_by_side(one: State, other: State) -> bool {
    &&& alike(one, other)
    &&& one.slot == other.slot
    &&& one.deferred == other.deferred
    &&& one.regen == other.regen
    &&& one.pcr_pid == other.pcr_pid
    &&& one.pcr_spacing == other.pcr_spacing
}

/// Whether two legs are about to fill the same slot in the same way.
pub open spec fn in_step(one: State, other: State) -> bool {
    &&& side_by_side(one, other)
    &&& one.last_pcr_index == other.last_pcr_index
    &&& one.pcr_pid_cc == other.pcr_pid_cc
}

/// Whether a packet carries a PCR, on the PID `pid`.
pub open spec fn carries_pcr(packet: Option<Seq<u8>>, pid: Option<u16>) -> bool {
    packet matches Some(packet) && pcr_of(packet) is Some && pid == Some(pid_of(packet))
}

/// Whether the slot that a leg is at holds a PCR of the source.
spec fn holds_pcr(leg: State) -> bool {
    leg.grid matches Some(grid) && carries_pcr(grid.due_at(leg.slot), leg.pcr_pid)
}

/// Asking for a slot leaves what belongs in later ones.
proof fn lemma_taken(grid: Placement, slot: u64, t: u64)
    requires
        slot < t,
    ensures
        due_in(grid.taken(slot).placed, t) == due_in(grid.placed, t),
{
    lemma_overdue_is_a_prefix(grid.placed, slot);
    let k = overdue(grid.placed, slot) as int;
    let m = k + if grid.due_at(slot) is Some {
        1int
    } else {
        0int
    };
    assert(grid.taken(slot).placed =~= grid.placed.skip(m));
    assert forall|i: int| 0 <= i < m implies (#[trigger] grid.placed[i]).0 < t by {
        if i == k {
            assert(grid.placed.skip(k)[0] == grid.placed[k]);
        }
    }
    lemma_earlier_slots_do_not_matter(grid.placed, m, t);
}

/// Legs in step fill a slot alike, and stay in step; legs side by side do where neither
/// inserts, and fall in step over a PCR of the source.
#[verifier::spinoff_prover]
proof fn lemma_slot_in_step(one: State, other: State, due: u64, other_due: u64, end: int)
    requires
        side_by_side(one, other),
        agree_until(one, other, end),
        one.slot < end,
        in_step(one, other) || (inserts_nothing(one, due) && inserts_nothing(other, other_due)),
        one.slot < u64::MAX,
    ensures
        ({
            let (a, b) = (one.packet_sent(due, false), other.packet_sent(other_due, false));
            &&& one.packet_out(due, false) == other.packet_out(other_due, false)
            &&& side_by_side(a, b)
            &&& agree_until(a, b, end)
            &&& a.slot == one.slot + 1
            &&& in_step(one, other) || (one.deferred.len() == 0 && holds_pcr(one)) ==> in_step(a, b)
        }),
{
    let (g, h) = (one.grid->Some_0, other.grid->Some_0);
    let slot = one.slot;
    let (x, y) = (
        one.admitted(one.media.released < due),
        other.admitted(other.media.released < other_due),
    );
    assert(due_in(g.placed, slot) == due_in(h.placed, slot));
    assert(g.due_at(slot) == due_in(g.placed, slot) && h.due_at(slot) == due_in(h.placed, slot));
    assert(x.deferred == y.deferred);
    let (a, b) = (one.packet_sent(due, false), other.packet_sent(other_due, false));
    assert(a.grid->Some_0 == g.taken(slot) && b.grid->Some_0 == h.taken(slot));
    assert forall|t: u64| a.slot <= t < end implies #[trigger] due_in(a.grid->Some_0.placed, t)
        == due_in(b.grid->Some_0.placed, t) by {
        lemma_taken(g, slot, t);
        lemma_taken(h, slot, t);
        assert(due_in(g.placed, t) == due_in(h.placed, t));
    }
    if one.deferred.len() == 0 && holds_pcr(one) {
        assert(x.deferred =~= seq![g.due_at(slot)->Some_0]);
    }
}

/// Legs in step fill `n` slots alike, and stay in step.
#[verifier::spinoff_prover]
proof fn lemma_slots_in_step(
    one: State,
    other: State,
    n: nat,
    due: u64,
    other_due: u64,
    end: int,
)
    requires
        in_step(one, other),
        agree_until(one, other, end),
        one.slot + n <= end <= u64::MAX,
    ensures
        ({
            let (a, b) = (one.packets_sent(n, due, false), other.packets_sent(n, other_due, false));
            &&& one.packets_out(n, due, false) == other.packets_out(n, other_due, false)
            &&& in_step(a, b)
            &&& agree_until(a, b, end)
            &&& a.slot == one.slot + n
        }),
    decreases n,
{
    if n > 0 {
        let p = (n - 1) as nat;
        lemma_slots_in_step(one, other, p, due, other_due, end);
        lemma_slot_in_step(
            one.packets_sent(p, due, false),
            other.packets_sent(p, other_due, false),
            due,
            other_due,
            end,
        );
    }
}

/// A slot without an insertion leaves nothing held back.
proof fn lemma_still_undisturbed(leg: State, due: u64)
    requires
        leg.grid is Some,
        undisturbed(leg),
        inserts_nothing(leg, due),
    ensures
        undisturbed(leg.packet_sent(due, false)),
{
    let ready = leg.admitted(leg.media.released < due);
    if let Some(packet) = leg.grid->Some_0.due_at(leg.slot) {
        assert(ready.deferred =~= seq![packet]);
    }
}

/// What belongs in a slot stays until the slot goes out.
proof fn lemma_still_due(leg: State, n: nat, due: u64, t: u64)
    requires
        leg.grid is Some,
        leg.slot + n <= t,
    ensures
        leg.packets_sent(n, due, false).grid is Some,
        leg.packets_sent(n, due, false).slot == leg.slot + n,
        due_in(leg.packets_sent(n, due, false).grid->Some_0.placed, t) == due_in(
            leg.grid->Some_0.placed,
            t,
        ),
    decreases n,
{
    if n > 0 {
        let before = leg.packets_sent((n - 1) as nat, due, false);
        lemma_still_due(leg, (n - 1) as nat, due, t);
        lemma_taken(before.grid->Some_0, before.slot, t);
    }
}

/// Whether a PCR of the source, on the PID that `leg` knows it by, belongs in one of the
/// `n` slots from where `leg` is.
pub open spec fn meets_a_pcr(leg: State, line: Seq<(u64, Seq<u8>)>, n: nat) -> bool {
    exists|t: u64|
        leg.slot <= t < leg.slot + n && carries_pcr(#[trigger] due_in(line, t), leg.pcr_pid)
}

/// Undisturbed legs side by side fill `n` slots alike where neither inserts, and are in
/// step once a PCR of the source has gone out.
#[verifier::spinoff_prover]
proof fn lemma_slots_side_by_side(
    one: State,
    other: State,
    n: nat,
    due: u64,
    other_due: u64,
    end: int,
)
    requires
        side_by_side(one, other),
        undisturbed(one),
        agree_until(one, other, end),
        inserts_none(one, n, due),
        inserts_none(other, n, other_due),
        one.slot + n <= end <= u64::MAX,
    ensures
        ({
            let (a, b) = (one.packets_sent(n, due, false), other.packets_sent(n, other_due, false));
            &&& one.packets_out(n, due, false) == other.packets_out(n, other_due, false)
            &&& side_by_side(a, b)
            &&& undisturbed(a)
            &&& a.pcr_pid == one.pcr_pid
            &&& agree_until(a, b, end)
            &&& a.slot == one.slot + n
            &&& meets_a_pcr(one, one.grid->Some_0.placed, n) ==> in_step(a, b)
        }),
    decreases n,
{
    if n > 0 {
        let p = (n - 1) as nat;
        let line = one.grid->Some_0.placed;
        let (a, b) = (one.packets_sent(p, due, false), other.packets_sent(p, other_due, false));
        lemma_slots_side_by_side(one, other, p, due, other_due, end);
        lemma_slot_in_step(a, b, due, other_due, end);
        lemma_still_undisturbed(a, due);
        if meets_a_pcr(one, line, n) {
            let t = choose|t: u64|
                one.slot <= t < one.slot + n && carries_pcr(#[trigger] due_in(line, t), one.pcr_pid);
            if t < one.slot + p {
                assert(meets_a_pcr(one, line, p));
            } else {
                lemma_still_due(one, p, due, t);
                assert(a.grid->Some_0.due_at(t) == due_in(a.grid->Some_0.placed, t));
                assert(holds_pcr(a));
            }
        }
    }
}

/// Over a datagram what belongs in its slots is on the grid already, and what belongs in
/// later ones stays on the line.
#[verifier::spinoff_prover]
proof fn lemma_line_over_a_datagram(leg: State, now: Nanos, events: Seq<Event>, t: u64)
    requires
        running(leg),
        keeps_up(leg, events),
        events.len() > 0,
        events[0] == Event::Datagram(now),
    ensures
        ({
            let next = leg.emitted(now);
            let rest = events.drop_first();
            let line = line_of(leg, events);
            &&& running(next)
            &&& next.slot == leg.slot + leg.per_datagram
            &&& t < next.slot ==> due_in(leg.grid->Some_0.placed, t) == due_in(line, t)
            &&& t >= next.slot ==> due_in(line_of(next, rest), t) == due_in(line, t)
        }),
{
    let n = leg.per_datagram as nat;
    let next = leg.emitted(now);
    let rest = events.drop_first();
    let line = line_of(leg, events);
    let more = future(leg.grid->Some_0, received(events));
    let ahead = State { grid: Some(Placement { placed: line, ..leg.grid->Some_0 }), ..leg };
    lemma_datagram_future(leg, now, events);
    lemma_in_time(next, rest);
    if t < next.slot {
        lemma_later_slots_do_not_matter(leg.grid->Some_0.placed, more, t);
    } else {
        assert(ahead_by(leg, ahead, more)) by {
            assert(on_the_wire(State { grid: None, ..leg }) == on_the_wire(
                State { grid: None, ..ahead },
            ));
        }
        lemma_datagram(leg, ahead, more, now);
        lemma_still_due(ahead, n, 0, t);
    }
}

/// What a leg fills its datagram from is the leg as it stood.
proof fn lemma_opened(leg: State, now: Nanos)
    requires
        running(leg),
        !(leg.source(now) is Stalled),
        leg.caught_up(now) == leg,
    ensures
        ({
            let open = leg.opened(now);
            &&& !open.stalled
            &&& open.grid == leg.grid
            &&& in_step(open, leg)
        }),
{
}

/// Two legs that are in step stay in step and send the same, PCRs of their own included,
/// given the same content, whatever the path does to the times at which it reaches them.
#[verifier::spinoff_prover]
pub proof fn law_legs_in_step_send_the_same(
    one: State,
    events: Seq<Event>,
    other: State,
    others: Seq<Event>,
)
    requires
        running(one),
        running(other),
        keeps_up(one, events),
        keeps_up(other, others),
        datagrams(events) == datagrams(others),
        in_step(one, other),
        agree_from(line_of(one, events), line_of(other, others), one.slot),
    ensures
        sent(one, events) == sent(other, others),
    decreases events.len() + others.len(),
{
    if events.len() > 0 && events[0] is Arrival {
        lemma_arrival_in_step(one, events);
        law_legs_in_step_send_the_same(
            after_event(one, events[0]),
            events.drop_first(),
            other,
            others,
        );
    } else if others.len() > 0 && others[0] is Arrival {
        lemma_arrival_in_step(other, others);
        law_legs_in_step_send_the_same(
            one,
            events,
            after_event(other, others[0]),
            others.drop_first(),
        );
    } else if events.len() > 0 && others.len() > 0 {
        lemma_datagram_in_step(one, events, other, others);
        law_legs_in_step_send_the_same(
            after_event(one, events[0]),
            events.drop_first(),
            after_event(other, others[0]),
            others.drop_first(),
        );
    }
}

/// An arrival leaves the line, and all that decides how it is sent.
#[verifier::spinoff_prover]
proof fn lemma_arrival_in_step(leg: State, events: Seq<Event>)
    requires
        running(leg),
        keeps_up(leg, events),
        events.len() > 0,
        events[0] is Arrival,
    ensures
        ({
            let next = after_event(leg, events[0]);
            let rest = events.drop_first();
            &&& running(next)
            &&& in_step(next, leg)
            &&& line_of(next, rest) == line_of(leg, events)
        }),
{
    if let Event::Arrival(packet, at) = events[0] {
        lemma_arrival(leg, packet, at);
        lemma_arrival_future(leg, packet, at, events);
        let next = after_event(leg, events[0]);
        assert(line_of(next, events.drop_first()) =~= line_of(leg, events));
        let (a, b) = (
            on_the_wire(State { grid: None, ..next }),
            on_the_wire(State { grid: None, ..leg }),
        );
        assert(a.slot == b.slot && a.deferred == b.deferred && a.regen == b.regen);
    }
}

/// A datagram that two legs send in step is the same, and leaves them in step.
#[verifier::spinoff_prover]
proof fn lemma_datagram_in_step(one: State, events: Seq<Event>, other: State, others: Seq<Event>)
    requires
        running(one),
        running(other),
        keeps_up(one, events),
        keeps_up(other, others),
        in_step(one, other),
        agree_from(line_of(one, events), line_of(other, others), one.slot),
        events.len() > 0,
        others.len() > 0,
        events[0] is Datagram,
        others[0] is Datagram,
    ensures
        ({
            let (at, later) = (events[0]->Datagram_0, others[0]->Datagram_0);
            let (a, b) = (one.emitted(at), other.emitted(later));
            let (rest, others_rest) = (events.drop_first(), others.drop_first());
            &&& one.caught_up(at).framing() == other.caught_up(later).framing()
            &&& one.datagram(at) == other.datagram(later)
            &&& running(a) && running(b)
            &&& in_step(a, b)
            &&& agree_from(line_of(a, rest), line_of(b, others_rest), a.slot)
        }),
{
    let (at, later) = (events[0]->Datagram_0, others[0]->Datagram_0);
    let (a, b) = (one.opened(at), other.opened(later));
    let n = one.per_datagram as nat;
    lemma_opened(one, at);
    lemma_opened(other, later);
    lemma_lines_over_datagrams(one, events, other, others);
    lemma_slots_in_step(a, b, n, a.media.owed(at), b.media.owed(later), one.slot + n);
}

/// Where the lines of two legs agree they still do after a datagram.
#[verifier::spinoff_prover]
proof fn lemma_lines_over_datagrams(
    one: State,
    events: Seq<Event>,
    other: State,
    others: Seq<Event>,
)
    requires
        running(one),
        running(other),
        keeps_up(one, events),
        keeps_up(other, others),
        side_by_side(one, other),
        agree_from(line_of(one, events), line_of(other, others), one.slot),
        events.len() > 0,
        others.len() > 0,
        events[0] is Datagram,
        others[0] is Datagram,
    ensures
        ({
            let (a, b) = (after_event(one, events[0]), after_event(other, others[0]));
            let (rest, others_rest) = (events.drop_first(), others.drop_first());
            &&& running(a) && running(b)
            &&& agree_until(one, other, one.slot + one.per_datagram)
            &&& agree_from(line_of(a, rest), line_of(b, others_rest), a.slot)
        }),
{
    let (at, later) = (events[0]->Datagram_0, others[0]->Datagram_0);
    let (a, b) = (one.emitted(at), other.emitted(later));
    let (rest, others_rest) = (events.drop_first(), others.drop_first());
    let (line, others_line) = (line_of(one, events), line_of(other, others));
    lemma_line_over_a_datagram(one, at, events, 0);
    lemma_line_over_a_datagram(other, later, others, 0);
    assert forall|t: u64| one.slot <= t < one.slot + one.per_datagram implies #[trigger] due_in(
        one.grid->Some_0.placed,
        t,
    ) == due_in(other.grid->Some_0.placed, t) by {
        lemma_line_over_a_datagram(one, at, events, t);
        lemma_line_over_a_datagram(other, later, others, t);
        assert(due_in(line, t) == due_in(others_line, t));
    }
    assert forall|t: u64| t >= a.slot implies #[trigger] due_in(line_of(a, rest), t) == due_in(
        line_of(b, others_rest),
        t,
    ) by {
        lemma_line_over_a_datagram(one, at, events, t);
        lemma_line_over_a_datagram(other, later, others, t);
        assert(due_in(line, t) == due_in(others_line, t));
    }
}

/// Two legs fall in step over a PCR of the source. Once they are about to fill the same
/// slots from the same content, with nothing held back, a datagram that carries a source
/// PCR and into which neither has to insert one leaves them in step: that datagram and
/// every one after it is the same, PCRs of their own included, whichever of them had
/// been running for how long.
pub proof fn law_legs_fall_in_step(
    one: State,
    events: Seq<Event>,
    other: State,
    others: Seq<Event>,
)
    requires
        running(one),
        running(other),
        keeps_up(one, events),
        keeps_up(other, others),
        datagrams(events) == datagrams(others),
        side_by_side(one, other),
        undisturbed(one),
        agree_from(line_of(one, events), line_of(other, others), one.slot),
        events.len() > 0 && others.len() > 0,
        events[0] matches Event::Datagram(at) && inserts_none(
            one.opened(at),
            one.per_datagram as nat,
            one.opened(at).media.owed(at),
        ),
        others[0] matches Event::Datagram(later) && inserts_none(
            other.opened(later),
            other.per_datagram as nat,
            other.opened(later).media.owed(later),
        ),
        meets_a_pcr(one, line_of(one, events), one.per_datagram as nat),
    ensures
        in_step(after_event(one, events[0]), after_event(other, others[0])),
        sent(one, events) == sent(other, others),
{
    let (at, later) = (events[0]->Datagram_0, others[0]->Datagram_0);
    let (a, b) = (one.opened(at), other.opened(later));
    let n = one.per_datagram as nat;
    let line = line_of(one, events);
    lemma_opened(one, at);
    lemma_opened(other, later);
    lemma_lines_over_datagrams(one, events, other, others);
    assert(meets_a_pcr(a, a.grid->Some_0.placed, n)) by {
        let t = choose|t: u64|
            one.slot <= t < one.slot + n && carries_pcr(#[trigger] due_in(line, t), one.pcr_pid);
        lemma_line_over_a_datagram(one, at, events, t);
        assert(due_in(a.grid->Some_0.placed, t) == due_in(line, t));
    }
    lemma_slots_side_by_side(a, b, n, a.media.owed(at), b.media.owed(later), one.slot + n);
    law_legs_in_step_send_the_same(
        after_event(one, events[0]),
        events.drop_first(),
        after_event(other, others[0]),
        others.drop_first(),
    );
}

/// The PID of the first PCR of `packets`.
spec fn first_pcr_pid(packets: Seq<Seq<u8>>) -> Option<u16>
    decreases packets.len(),
{
    if packets.len() == 0 {
        None
    } else if pcr_of(packets[0]) is Some {
        Some(pid_of(packets[0]))
    } else {
        first_pcr_pid(packets.drop_first())
    }
}

/// A leg knows the PCR by the PID of the first one it hears, whenever it starts.
#[verifier::spinoff_prover]
#[verifier::rlimit(30)]
proof fn lemma_pid_learned(leg: State, events: Seq<Event>, later: Seq<Seq<u8>>)
    requires
        listening(leg),
        gathers(leg, events),
        after_events(leg, events).pcr_pid is Some,
    ensures
        after_events(leg, events).pcr_pid == match leg.pcr_pid {
            Some(pid) => Some(pid),
            None => first_pcr_pid(received(events) + later),
        },
    decreases events.len(),
{
    if events.len() > 0 {
        if let Event::Arrival(packet, at) = events[0] {
            let rest = events.drop_first();
            lemma_gathered(leg, packet, at);
            lemma_pid_learned(leg.enqueued(packet, at), rest, later);
            if pid_of(packet) != NULL_PID {
                let all = received(events) + later;
                assert(all[0] == packet);
                assert(all.drop_first() =~= received(rest) + later);
            }
        }
    }
}

/// Two new legs of one configuration that start at the same slot are in step from there
/// on: they send the same, PCRs of their own included, however seldom the source repeats
/// its own.
pub proof fn law_fresh_legs_that_start_together_stay_in_step(
    config: Config,
    packets: Seq<Seq<u8>>,
    heard: Seq<Event>,
    events: Seq<Event>,
    others_heard: Seq<Event>,
    others: Seq<Event>,
)
    requires
        config.refusal() is None,
        config.clocking == Clocking::Stream,
        hears(config, heard, events, packets),
        hears(config, others_heard, others, packets),
        running(started_leg(config, heard)),
        running(started_leg(config, others_heard)),
        keeps_up(started_leg(config, heard), events),
        keeps_up(started_leg(config, others_heard), others),
        started_leg(config, heard).slot == started_leg(config, others_heard).slot,
        datagrams(events) == datagrams(others),
    ensures
        sent(started_leg(config, heard), events) == sent(
            started_leg(config, others_heard),
            others,
        ),
{
    lemma_fresh_line(config, heard, events, packets);
    lemma_fresh_line(config, others_heard, others, packets);
    lemma_pid_learned(State::initial(config), heard, received(events));
    lemma_pid_learned(State::initial(config), others_heard, received(others));
    law_legs_in_step_send_the_same(
        started_leg(config, heard),
        events,
        started_leg(config, others_heard),
        others,
    );
}

} // verus!
