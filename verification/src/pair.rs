//! What a redundant pair agrees on.
//!
//! Two legs run their own events: the same packets reach each of them, at its own
//! times and in between its own datagrams. Under stream clocking that makes no
//! difference to what either of them sends.

use vstd::prelude::*;

use crate::arith::{beyond, capped, Nanos};
use crate::laws::on_the_wire;
use crate::null_insertion::NULL_PID;
use crate::output::Framing;
use crate::packet::pid_of;
use crate::pcr::pcr_of;
use crate::schedule::State;
use crate::stream_grid::{
    extends, law_steps_and_splices_read_plainly, lemma_extension_keeps_overdue,
    lemma_overdue_is_a_prefix, overdue, reads_plainly, splices, spread, Placement,
};

verus! {

/// Something that happens to a leg.
pub enum Event {
    /// A packet reaches it.
    Arrival(Seq<u8>, Nanos),
    /// It sends a datagram.
    Datagram(Nanos),
}

/// The leg after an event.
pub open spec fn after_event(leg: State, event: Event) -> State {
    match event {
        Event::Arrival(packet, at) => leg.enqueued(packet, at),
        Event::Datagram(now) => leg.emitted(now),
    }
}

/// Everything a leg sends over `events`: each datagram, and the number it goes out
/// under.
pub open spec fn sent(leg: State, events: Seq<Event>) -> Seq<(Option<Framing>, Seq<u8>)>
    decreases events.len(),
{
    if events.len() == 0 {
        Seq::empty()
    } else {
        let rest = sent(after_event(leg, events[0]), events.drop_first());
        match events[0] {
            Event::Arrival(..) => rest,
            Event::Datagram(now) => seq![(leg.caught_up(now).framing(), leg.datagram(now))] + rest,
        }
    }
}

/// The content that reaches a leg over `events`.
pub open spec fn received(events: Seq<Event>) -> Seq<Seq<u8>>
    decreases events.len(),
{
    if events.len() == 0 {
        Seq::empty()
    } else {
        match events[0] {
            Event::Arrival(packet, _) if pid_of(packet) != NULL_PID => seq![packet] + received(
                events.drop_first(),
            ),
            _ => received(events.drop_first()),
        }
    }
}

/// How many datagrams a leg sends over `events`.
pub open spec fn datagrams(events: Seq<Event>) -> nat
    decreases events.len(),
{
    if events.len() == 0 {
        0
    } else {
        datagrams(events.drop_first()) + match events[0] {
            Event::Arrival(..) => 0nat,
            Event::Datagram(_) => 1nat,
        }
    }
}

/// What a packet puts on the grid: the run that it closes, each packet of it in its
/// slot.
pub open spec fn added(grid: Placement, packet: Seq<u8>) -> Seq<(u64, Seq<u8>)> {
    match (pcr_of(packet), grid.open) {
        (Some(pcr), Some((_, open_slot))) => spread(
            open_slot,
            beyond(open_slot, grid.landing(pcr, 0).slot),
            grid.next_free,
            grid.run,
        ),
        _ => Seq::empty(),
    }
}

/// What `packets` will put on the grid.
pub open spec fn future(grid: Placement, packets: Seq<Seq<u8>>) -> Seq<(u64, Seq<u8>)>
    decreases packets.len(),
{
    if packets.len() == 0 {
        Seq::empty()
    } else {
        added(grid, packets[0]) + future(grid.pushed(packets[0], 0), packets.drop_first())
    }
}

/// A leg that sends from the grid, at depths that were pinned, or is about to.
pub open spec fn running(leg: State) -> bool {
    &&& leg.grid is Some
    &&& leg.pcr_pid is Some
    &&& leg.latency is Fixed
    &&& !leg.stalled
}

/// Whether a leg keeps up over `events`: what it still takes on once it has started
/// sending reaches it in time for its slot and finds room, it reads no silence of its
/// own into a jump of the source clock, and it neither loses its source nor falls so far
/// behind that its output has to move.
pub open spec fn keeps_up(leg: State, events: Seq<Event>) -> bool
    decreases events.len(),
{
    events.len() > 0 ==> {
        &&& match events[0] {
            Event::Arrival(packet, at) => pid_of(packet) != NULL_PID ==> {
                let new = added(leg.grid->Some_0, packet);
                &&& leg.stats.output_packets > 0
                &&& reads_plainly(leg.grid->Some_0, packet, at)
                &&& leg.grid->Some_0.placed.len() + new.len() <= leg.grid->Some_0.capacity
                &&& forall|i: int| 0 <= i < new.len() ==> (#[trigger] new[i]).0 >= leg.slot
            },
            Event::Datagram(now) => {
                &&& !(leg.source(now) is Stalled)
                &&& leg.caught_up(now) == leg
                &&& leg.slot + leg.per_datagram <= u64::MAX
            },
        }
        &&& keeps_up(after_event(leg, events[0]), events.drop_first())
    }
}

/// What decides where the next packet is placed.
pub open spec fn settled(grid: Placement) -> Placement {
    Placement {
        placed: Seq::empty(),
        open_at: None,
        capacity: 1,
        overruns: 0,
        displacement: 0,
        ..grid
    }
}

/// Taking on a packet is decided by what the grid has settled, whatever the time.
pub proof fn lemma_push(one: Placement, other: Placement, packet: Seq<u8>, at: Nanos, later: Nanos)
    requires
        settled(one) == settled(other),
        reads_plainly(one, packet, at),
        reads_plainly(other, packet, later),
    ensures
        added(one, packet) == added(other, packet),
        settled(one.pushed(packet, at)) == settled(other.pushed(packet, later)),
        one.placed.len() + added(one, packet).len() <= one.capacity ==> one.pushed(
            packet,
            at,
        ).placed == one.placed + added(one, packet),
{
    assert(one.open == other.open && one.run == other.run && one.map == other.map);
    assert(one.epoch == other.epoch && one.next_free == other.next_free);
    assert(one.last_span == other.last_span);
    if let Some(pcr) = pcr_of(packet) {
        let a = one.landing(pcr, one.quiet(at));
        let b = other.landing(pcr, other.quiet(later));
        assert(a == b && a == one.landing(pcr, 0));
        assert(!a.after_silence);
        assert(settled(one.ended(a)) == settled(other.ended(b)));
        if one.run.len() == 0 {
            assert(added(one, packet) =~= Seq::empty());
        }
    }
    assert(one.placed + Seq::<(u64, Seq<u8>)>::empty() =~= one.placed);
}

/// A splice keeps an aligned pair aligned: two legs whose grids have settled the same,
/// given the same packet whose PCR jumps or repeats, and on neither of which a silence
/// accounts for it, land it on the same slot - behind the run that it ends - place that
/// run alike, and have settled the same afterwards.
pub proof fn law_a_splice_keeps_a_pair_aligned(
    one: Placement,
    other: Placement,
    packet: Seq<u8>,
    at: Nanos,
    later: Nanos,
)
    requires
        settled(one) == settled(other),
        splices(one, packet, at),
        splices(other, packet, later),
    ensures
        ({
            let pcr = pcr_of(packet)->Some_0;
            let behind = one.open->Some_0.1 + if one.run.len() == 0 {
                1
            } else {
                one.run.len() as int
            };
            &&& one.pushed(packet, at).open == Some((pcr, capped(behind)))
            &&& other.pushed(packet, later).open == Some((pcr, capped(behind)))
        }),
        added(one, packet) == added(other, packet),
        settled(one.pushed(packet, at)) == settled(other.pushed(packet, later)),
{
    law_steps_and_splices_read_plainly(one, packet, at);
    law_steps_and_splices_read_plainly(other, packet, later);
    lemma_push(one, other, packet, at, later);
    let pcr = pcr_of(packet)->Some_0;
    assert(one.open == settled(one).open && other.open == settled(other).open);
    let landing = one.landing(pcr, 0);
    let behind = one.open->Some_0.1 + if one.run.len() == 0 {
        1
    } else {
        one.run.len() as int
    };
    assert(landing.slot == capped(behind)) by {
        vstd::arithmetic::div_mod::lemma_small_mod(
            capped(behind) as nat,
            0x1_0000_0000_0000_0000nat,
        );
    }
}

/// What is still to come is decided by what the grid has settled.
pub proof fn lemma_future(one: Placement, other: Placement, packets: Seq<Seq<u8>>)
    requires
        settled(one) == settled(other),
    ensures
        future(one, packets) == future(other, packets),
    decreases packets.len(),
{
    if packets.len() > 0 {
        lemma_push(one, other, packets[0], 0, 0);
        lemma_future(
            one.pushed(packets[0], 0),
            other.pushed(packets[0], 0),
            packets.drop_first(),
        );
    }
}

/// Whether `ahead` is `leg` with `more` already on its grid.
pub open spec fn ahead_by(leg: State, ahead: State, more: Seq<(u64, Seq<u8>)>) -> bool {
    &&& leg.grid is Some
    &&& ahead.grid is Some
    &&& ahead.grid->Some_0.map == leg.grid->Some_0.map
    &&& ahead.grid->Some_0.placed == leg.grid->Some_0.placed + more
    &&& on_the_wire(State { grid: None, ..leg }) == on_the_wire(State { grid: None, ..ahead })
}

/// The grid without what is on it.
pub open spec fn cleared(grid: Placement) -> Placement {
    Placement { placed: Seq::empty(), ..grid }
}

/// A slot goes out the same whether or not later slots are already on the grid.
proof fn lemma_slot_ahead(
    leg: State,
    ahead: State,
    more: Seq<(u64, Seq<u8>)>,
    due: u64,
    other_due: u64,
)
    requires
        ahead_by(leg, ahead, more),
        leg.slot < u64::MAX,
        forall|i: int| 0 <= i < more.len() ==> (#[trigger] more[i]).0 > leg.slot,
    ensures
        leg.packet_out(due, false) == ahead.packet_out(other_due, false),
        ahead_by(leg.packet_sent(due, false), ahead.packet_sent(other_due, false), more),
        leg.packet_sent(due, false).slot == leg.slot + 1,
        cleared(leg.packet_sent(due, false).grid->Some_0) == cleared(leg.grid->Some_0),
        cleared(ahead.packet_sent(other_due, false).grid->Some_0) == cleared(ahead.grid->Some_0),
{
    let a = leg.grid->Some_0;
    let b = ahead.grid->Some_0;
    let slot = leg.slot;
    assert(ahead.slot == slot && ahead.deferred == leg.deferred && ahead.regen == leg.regen);
    assert(b.placed.take(a.placed.len() as int) =~= a.placed);
    assert(extends(a.placed, b.placed, (slot + 1) as u64)) by {
        assert forall|i: int| a.placed.len() <= i < b.placed.len() implies (
        #[trigger] b.placed[i]).0 >= slot + 1 by {
            assert(b.placed[i] == more[i - a.placed.len()]);
        }
    }
    lemma_extension_keeps_overdue(a.placed, b.placed, (slot + 1) as u64, slot);
    lemma_overdue_is_a_prefix(a.placed, slot);
    let k = overdue(a.placed, slot) as int;
    assert(b.placed.skip(k) =~= a.placed.skip(k) + more);
    if k < a.placed.len() {
        assert(b.placed.skip(k)[0] == a.placed.skip(k)[0]);
        assert(b.placed.skip(k).drop_first() =~= a.placed.skip(k).drop_first() + more);
    } else if more.len() > 0 {
        assert(b.placed.skip(k)[0] == more[0]);
    }
    assert(a.due_at(slot) == b.due_at(slot));
    assert(b.taken(slot).placed =~= a.taken(slot).placed + more);
    let x = leg.admitted(leg.media.released < due);
    let y = ahead.admitted(ahead.media.released < other_due);
    assert(ahead_by(x, y, more));
    assert(x.insertion(false) == y.insertion(false));
    let (sent, other) = (leg.packet_sent(due, false), ahead.packet_sent(other_due, false));
    assert(sent.grid == x.grid && other.grid == y.grid);
    assert(on_the_wire(State { grid: None, ..sent }) =~= on_the_wire(
        State { grid: None, ..other },
    ));
}

/// The same of `n` slots.
proof fn lemma_slots_ahead(
    leg: State,
    ahead: State,
    more: Seq<(u64, Seq<u8>)>,
    n: nat,
    due: u64,
    other_due: u64,
)
    requires
        ahead_by(leg, ahead, more),
        leg.slot + n <= u64::MAX,
        forall|i: int| 0 <= i < more.len() ==> (#[trigger] more[i]).0 >= leg.slot + n,
    ensures
        leg.packets_out(n, due, false) == ahead.packets_out(n, other_due, false),
        ahead_by(leg.packets_sent(n, due, false), ahead.packets_sent(n, other_due, false), more),
        leg.packets_sent(n, due, false).slot == leg.slot + n,
        cleared(leg.packets_sent(n, due, false).grid->Some_0) == cleared(leg.grid->Some_0),
        cleared(ahead.packets_sent(n, other_due, false).grid->Some_0) == cleared(
            ahead.grid->Some_0,
        ),
    decreases n,
{
    if n > 0 {
        lemma_slots_ahead(leg, ahead, more, (n - 1) as nat, due, other_due);
        lemma_slot_ahead(
            leg.packets_sent((n - 1) as nat, due, false),
            ahead.packets_sent((n - 1) as nat, other_due, false),
            more,
            due,
            other_due,
        );
    }
}

/// Sending leaves a leg running.
proof fn lemma_still_running(leg: State, n: nat, due: u64)
    requires
        running(leg),
    ensures
        running(leg.packets_sent(n, due, false)),
    decreases n,
{
    if n > 0 {
        lemma_still_running(leg, (n - 1) as nat, due);
    }
}

/// An arrival goes on the grid, and changes nothing else that decides the output.
pub proof fn lemma_arrival(leg: State, packet: Seq<u8>, at: Nanos)
    requires
        running(leg),
        pid_of(packet) != NULL_PID ==> leg.stats.output_packets > 0,
    ensures
        running(leg.enqueued(packet, at)),
        on_the_wire(State { grid: None, ..leg.enqueued(packet, at) }) == on_the_wire(
            State { grid: None, ..leg },
        ),
        leg.enqueued(packet, at).grid == Some(
            if pid_of(packet) == NULL_PID {
                leg.grid->Some_0
            } else {
                leg.grid->Some_0.pushed(packet, at)
            },
        ),
{
}

/// A datagram goes out the same whether or not later slots are already on the grid.
#[verifier::spinoff_prover]
pub proof fn lemma_datagram(leg: State, ahead: State, more: Seq<(u64, Seq<u8>)>, now: Nanos)
    requires
        running(leg),
        ahead_by(leg, ahead, more),
        !(leg.source(now) is Stalled),
        leg.caught_up(now) == leg,
        leg.slot + leg.per_datagram <= u64::MAX,
        forall|i: int| 0 <= i < more.len() ==> (#[trigger] more[i]).0 >= leg.slot + leg.per_datagram,
    ensures
        ({
            let n = leg.per_datagram as nat;
            &&& leg.datagram(now) == ahead.packets_out(n, 0, false)
            &&& ahead_by(leg.emitted(now), ahead.packets_sent(n, 0, false), more)
            &&& running(leg.emitted(now))
            &&& leg.emitted(now).slot == leg.slot + n
            &&& cleared(leg.emitted(now).grid->Some_0) == cleared(leg.grid->Some_0)
            &&& cleared(ahead.packets_sent(n, 0, false).grid->Some_0) == cleared(
                ahead.grid->Some_0,
            )
        }),
{
    let open = leg.opened(now);
    let due = open.media.owed(now);
    assert(!open.stalled);
    assert(open.grid == leg.grid);
    assert(on_the_wire(State { grid: None, ..open }) =~= on_the_wire(State { grid: None, ..leg }));
    lemma_still_running(open, leg.per_datagram as nat, due);
    lemma_slots_ahead(open, ahead, more, leg.per_datagram as nat, due, 0);
}

/// What is still to come belongs in slots that have not gone out.
#[verifier::spinoff_prover]
pub proof fn lemma_in_time(leg: State, events: Seq<Event>)
    requires
        running(leg),
        keeps_up(leg, events),
    ensures
        all_from(future(leg.grid->Some_0, received(events)), leg.slot),
    decreases events.len(),
{
    if events.len() > 0 {
        let next = after_event(leg, events[0]);
        let rest = events.drop_first();
        match events[0] {
            Event::Arrival(packet, at) => {
                lemma_arrival_future(leg, packet, at, events);
                lemma_in_time(next, rest);
            },
            Event::Datagram(now) => {
                lemma_datagram_future(leg, now, events);
                lemma_in_time(next, rest);
            },
        }
    }
}

/// Whether every slot of `placed` is `slot` or later.
pub open spec fn all_from(placed: Seq<(u64, Seq<u8>)>, slot: u64) -> bool {
    forall|i: int| 0 <= i < placed.len() ==> (#[trigger] placed[i]).0 >= slot
}

/// An arrival takes from what is to come what it puts on the grid.
#[verifier::spinoff_prover]
pub proof fn lemma_arrival_future(leg: State, packet: Seq<u8>, at: Nanos, events: Seq<Event>)
    requires
        running(leg),
        events.len() > 0,
        events[0] == Event::Arrival(packet, at),
        pid_of(packet) != NULL_PID ==> leg.stats.output_packets > 0,
        pid_of(packet) != NULL_PID ==> reads_plainly(leg.grid->Some_0, packet, at),
    ensures
        ({
            let next = leg.enqueued(packet, at);
            let rest = received(events.drop_first());
            let to_come = future(next.grid->Some_0, rest);
            &&& running(next)
            &&& next.slot == leg.slot
            &&& next.grid->Some_0.map == leg.grid->Some_0.map
            &&& if pid_of(packet) == NULL_PID {
                &&& next.grid == leg.grid
                &&& to_come == future(leg.grid->Some_0, received(events))
            } else {
                let new = added(leg.grid->Some_0, packet);
                &&& new + to_come == future(leg.grid->Some_0, received(events))
                &&& leg.grid->Some_0.placed.len() + new.len() <= leg.grid->Some_0.capacity
                    ==> next.grid->Some_0.placed == leg.grid->Some_0.placed + new
            }
        }),
{
    let grid = leg.grid->Some_0;
    let rest = received(events.drop_first());
    lemma_arrival(leg, packet, at);
    if pid_of(packet) != NULL_PID {
        assert(received(events) == seq![packet] + rest);
        assert(received(events).drop_first() =~= rest);
        assert(received(events)[0] == packet);
        lemma_push(grid, grid, packet, at, 0);
        lemma_future(grid.pushed(packet, 0), grid.pushed(packet, at), rest);
    }
}

/// A datagram leaves what is to come as it was.
#[verifier::spinoff_prover]
pub proof fn lemma_datagram_future(leg: State, now: Nanos, events: Seq<Event>)
    requires
        running(leg),
        events.len() > 0,
        events[0] == Event::Datagram(now),
        !(leg.source(now) is Stalled),
        leg.caught_up(now) == leg,
        leg.slot + leg.per_datagram <= u64::MAX,
    ensures
        ({
            let next = leg.emitted(now);
            let rest = received(events.drop_first());
            &&& received(events) == rest
            &&& running(next)
            &&& next.slot == leg.slot + leg.per_datagram
            &&& future(next.grid->Some_0, rest) == future(leg.grid->Some_0, received(events))
        }),
{
    let grid = leg.grid->Some_0;
    let next = leg.emitted(now);
    let none = Seq::<(u64, Seq<u8>)>::empty();
    assert(grid.placed + none =~= grid.placed);
    assert(ahead_by(leg, leg, none));
    lemma_datagram(leg, leg, none, now);
    lemma_cleared(grid, next.grid->Some_0);
    lemma_future(grid, next.grid->Some_0, received(events));
}

/// What is on the grid does not decide where the next packet is placed.
proof fn lemma_cleared(one: Placement, other: Placement)
    requires
        cleared(one) == cleared(other),
    ensures
        settled(one) == settled(other),
{
    assert(settled(one) == settled(cleared(one)));
    assert(settled(other) == settled(cleared(other)));
}

/// A leg as far as its output goes, with all that is still to come on its grid.
spec fn prospect(leg: State, packets: Seq<Seq<u8>>) -> State {
    let grid = leg.grid->Some_0;
    on_the_wire(
        State {
            grid: Some(
                Placement {
                    map: grid.map,
                    placed: grid.placed + future(grid, packets),
                    ..Placement::empty(1, 1)
                },
            ),
            ..leg
        },
    )
}

/// Legs with the same prospect send the same.
#[verifier::spinoff_prover]
proof fn lemma_same_prospect(one: State, events: Seq<Event>, other: State, others: Seq<Event>)
    requires
        running(one),
        running(other),
        keeps_up(one, events),
        keeps_up(other, others),
        datagrams(events) == datagrams(others),
        prospect(one, received(events)) == prospect(other, received(others)),
    ensures
        sent(one, events) == sent(other, others),
    decreases events.len() + others.len(),
{
    if events.len() > 0 && events[0] is Arrival {
        lemma_prospect_kept(one, events);
        lemma_same_prospect(after_event(one, events[0]), events.drop_first(), other, others);
    } else if others.len() > 0 && others[0] is Arrival {
        lemma_prospect_kept(other, others);
        lemma_same_prospect(one, events, after_event(other, others[0]), others.drop_first());
    } else if events.len() > 0 && others.len() > 0 {
        let (a, b) = (prospect(one, received(events)), prospect(other, received(others)));
        lemma_prospect_sent(one, events);
        lemma_prospect_sent(other, others);
        assert(one.per_datagram == a.per_datagram && other.per_datagram == b.per_datagram);
        lemma_same_prospect(
            after_event(one, events[0]),
            events.drop_first(),
            after_event(other, others[0]),
            others.drop_first(),
        );
    }
}

/// An arrival moves content from what is to come to what is there.
#[verifier::spinoff_prover]
proof fn lemma_prospect_kept(leg: State, events: Seq<Event>)
    requires
        running(leg),
        keeps_up(leg, events),
        events.len() > 0,
        events[0] is Arrival,
    ensures
        ({
            let next = after_event(leg, events[0]);
            let rest = events.drop_first();
            &&& running(next)
            &&& prospect(next, received(rest)) == prospect(leg, received(events))
        }),
{
    let grid = leg.grid->Some_0;
    let next = after_event(leg, events[0]);
    let rest = received(events.drop_first());
    if let Event::Arrival(packet, at) = events[0] {
        lemma_arrival(leg, packet, at);
        lemma_arrival_future(leg, packet, at, events);
        assert(next.grid->Some_0.placed + future(next.grid->Some_0, rest) =~= grid.placed + future(
            grid,
            received(events),
        ));
        assert(prospect(next, rest) =~= prospect(leg, received(events)));
    }
}

/// A datagram is that of the prospect, and leaves the prospect less that datagram.
#[verifier::spinoff_prover]
proof fn lemma_prospect_sent(leg: State, events: Seq<Event>)
    requires
        running(leg),
        keeps_up(leg, events),
        events.len() > 0,
        events[0] is Datagram,
    ensures
        ({
            let next = after_event(leg, events[0]);
            let rest = events.drop_first();
            let ahead = prospect(leg, received(events));
            let n = leg.per_datagram as nat;
            &&& running(next)
            &&& leg.framing() == ahead.framing()
            &&& leg.datagram(events[0]->Datagram_0) == ahead.packets_out(n, 0, false)
            &&& prospect(next, received(rest)) == on_the_wire(ahead.packets_sent(n, 0, false))
        }),
{
    let grid = leg.grid->Some_0;
    let next = after_event(leg, events[0]);
    let rest = events.drop_first();
    let ahead = prospect(leg, received(events));
    let more = future(grid, received(events));
    if let Event::Datagram(now) = events[0] {
        lemma_datagram_future(leg, now, events);
        lemma_in_time(next, rest);
        assert(ahead_by(leg, ahead, more));
        lemma_datagram(leg, ahead, more, now);
        let after = ahead.packets_sent(leg.per_datagram as nat, 0, false);
        assert(next.grid->Some_0.map == cleared(next.grid->Some_0).map);
        assert(after.grid->Some_0 =~= Placement {
            placed: next.grid->Some_0.placed + more,
            ..cleared(after.grid->Some_0)
        });
        assert(prospect(next, received(rest)) =~= on_the_wire(after));
    }
}

/// A redundant pair sends the same: two legs that once stood alike and are given the
/// same content send, datagram for datagram, the same bytes under the same numbers,
/// whatever the path did to the times at which each received it and wherever those
/// fell between its own datagrams, over splices of the source as between them.
pub proof fn law_a_pair_sends_the_same(
    one: State,
    events: Seq<Event>,
    other: State,
    others: Seq<Event>,
)
    requires
        running(one),
        running(other),
        on_the_wire(one) == on_the_wire(other),
        received(events) == received(others),
        datagrams(events) == datagrams(others),
        keeps_up(one, events),
        keeps_up(other, others),
    ensures
        sent(one, events) == sent(other, others),
{
    let (a, b) = (one.grid->Some_0, other.grid->Some_0);
    assert(on_the_wire(one).grid == on_the_wire(other).grid);
    assert(settled(a) == settled(b));
    lemma_future(a, b, received(events));
    assert(a.placed == b.placed && a.map == b.map);
    assert(prospect(one, received(events)) =~= prospect(other, received(others)));
    lemma_same_prospect(one, events, other, others);
}

} // verus!
