//! What holds of a run as a whole, from its first packet to its last.

use vstd::prelude::*;

use crate::account::{
    after_call, after_calls, content_of, countable, in_hand, law_content_passes_through_in_order,
    law_every_packet_is_accounted_for, law_the_totals_agree, lemma_content_adds_up, passes_through,
    sent_by, stuffing_in, taken_on, waiting, Call,
};
use crate::arith::Nanos;
use crate::config::{Clocking, Config, PcrMode, StallPolicy};
use crate::media_clock::RateSample;
use crate::observe::SourceState;
use crate::pacer::Run;
use crate::schedule::State;

verus! {

/// Something that a driver tells an engine.
pub enum Happening {
    /// A packet arrived.
    Arrived(Seq<u8>, Nanos),
    /// The rate sample that it completed is folded in.
    Folded(RateSample, u64),
    /// The input ended.
    Ended(Nanos),
    /// A wait for a packet came back empty.
    Silent(Nanos),
    /// The output clock came due.
    Woke(Nanos),
}

/// The calls that a happening makes on the scheduler.
pub open spec fn calls_of(run: Run, happening: Happening) -> Seq<Call> {
    match happening {
        Happening::Arrived(packet, now) => seq![Call::Enqueue(packet, now)],
        Happening::Folded(sample, decay) => seq![Call::FoldRate(sample, decay)],
        Happening::Ended(now) => if run.state.flushed().pending() {
            seq![Call::Flush, Call::StartNow(now)]
        } else {
            seq![Call::Flush]
        },
        Happening::Silent(now) => seq![Call::PollStart(now)],
        Happening::Woke(now) => match (run.state.source(now), run.stall_policy) {
            (SourceState::Stalled, StallPolicy::Mute) => seq![Call::AdvanceMuted(now)],
            (SourceState::Stalled, StallPolicy::Fail) => Seq::empty(),
            _ => seq![Call::EmitDatagram(now)],
        },
    }
}

/// The run after a happening.
pub open spec fn run_after(run: Run, happening: Happening) -> Run {
    match happening {
        Happening::Arrived(packet, now) => Run { state: run.state.enqueued(packet, now), ..run },
        Happening::Folded(sample, decay) => Run {
            state: State { media: run.state.media.folded(sample, decay), ..run.state },
            ..run
        },
        Happening::Ended(now) => run.ended(now),
        Happening::Silent(now) => run.silent(now),
        Happening::Woke(now) => {
            let source = run.state.source(now);
            if source is Stalled && run.stall_policy is Fail {
                Run { reported: Some((source, now)), ..run }
            } else {
                Run { state: run.turned(now), ..run }.after_report(source, now)
            }
        },
    }
}

/// The run after `happenings`.
pub open spec fn run_over(run: Run, happenings: Seq<Happening>) -> Run
    decreases happenings.len(),
{
    if happenings.len() == 0 {
        run
    } else {
        run_after(run_over(run, happenings.drop_last()), happenings.last())
    }
}

/// The calls that `happenings` make on the scheduler.
pub open spec fn calls_over(run: Run, happenings: Seq<Happening>) -> Seq<Call>
    decreases happenings.len(),
{
    if happenings.len() == 0 {
        Seq::empty()
    } else {
        calls_over(run, happenings.drop_last()) + calls_of(
            run_over(run, happenings.drop_last()),
            happenings.last(),
        )
    }
}

/// The packets that a driver sends over `happenings`, one by one.
pub open spec fn sent_over(run: Run, happenings: Seq<Happening>) -> Seq<Seq<u8>> {
    sent_by(run.state, calls_over(run, happenings))
}

/// The packets that arrive over `happenings`.
pub open spec fn arrived_over(happenings: Seq<Happening>) -> Seq<Seq<u8>>
    decreases happenings.len(),
{
    if happenings.len() == 0 {
        Seq::empty()
    } else {
        match happenings.last() {
            Happening::Arrived(packet, _) => arrived_over(happenings.drop_last()).push(packet),
            _ => arrived_over(happenings.drop_last()),
        }
    }
}

/// A run about to start.
pub open spec fn fresh_run(config: Config, now: Nanos) -> Run {
    Run {
        stall_policy: config.stall_policy,
        position_policy: config.pcr_position_policy,
        state: State::initial(config),
        closing: false,
        started_at: now,
        reported: None,
    }
}

/// Whether a run is over: the input has ended and everything has gone out.
pub open spec fn over(run: Run) -> bool {
    run.closing && !run.state.pending()
}

/// Whether two states are one.
pub open spec fn same(one: State, other: State) -> bool {
    one == other
}

/// Calls made in two goes.
proof fn lemma_calls_in_turn(state: State, first: Seq<Call>, rest: Seq<Call>)
    ensures
        same(after_calls(state, first + rest), after_calls(after_calls(state, first), rest)),
    decreases rest.len(),
{
    if rest.len() == 0 {
        assert(first + rest =~= first);
    } else {
        assert((first + rest).drop_last() =~= first + rest.drop_last());
        lemma_calls_in_turn(state, first, rest.drop_last());
    }
}

/// No call, one and two.
proof fn lemma_few_calls(state: State, one: Call, other: Call)
    ensures
        same(after_calls(state, Seq::empty()), state),
        same(after_calls(state, seq![one]), after_call(state, one)),
        same(after_calls(state, seq![one, other]), after_call(after_call(state, one), other)),
{
    let none = Seq::<Call>::empty();
    assert(seq![one].drop_last() =~= none);
    assert(seq![one].last() == one);
    assert(seq![one, other].drop_last() =~= seq![one]);
    assert(seq![one, other].last() == other);
    assert(same(after_calls(state, none), state));
    assert(same(after_calls(state, seq![one]), after_call(after_calls(state, none), one)));
}

/// What they take on.
proof fn lemma_few_taken(one: Call, other: Call)
    ensures
        taken_on(Seq::empty()) == Seq::<Seq<u8>>::empty(),
        one matches Call::Enqueue(packet, _) ==> taken_on(seq![one]) == content_of(seq![packet]),
        !(one is Enqueue) ==> taken_on(seq![one]) == Seq::<Seq<u8>>::empty(),
        !(one is Enqueue) && !(other is Enqueue) ==> taken_on(seq![one, other]) == Seq::<
            Seq<u8>,
        >::empty(),
{
    let none = Seq::<Call>::empty();
    assert(seq![one].drop_last() =~= none);
    assert(seq![one].last() == one);
    assert(seq![one, other].drop_last() =~= seq![one]);
    assert(seq![one, other].last() == other);
    assert(taken_on(none) =~= Seq::empty());
    assert(!(one is Enqueue) ==> taken_on(seq![one]) == taken_on(none));
    if let Call::Enqueue(packet, _) = one {
        assert(seq![packet].drop_last() =~= Seq::<Seq<u8>>::empty());
        assert(seq![packet].last() == packet);
        assert(content_of(seq![packet].drop_last()) =~= Seq::empty());
    }
}

/// What each call is.
proof fn lemma_calls(state: State, packet: Seq<u8>, sample: RateSample, decay: u64, now: Nanos)
    ensures
        same(after_call(state, Call::Enqueue(packet, now)), state.enqueued(packet, now)),
        same(
            after_call(state, Call::FoldRate(sample, decay)),
            (State { media: state.media.folded(sample, decay), ..state }),
        ),
        same(after_call(state, Call::PollStart(now)), state.polled(now)),
        same(after_call(state, Call::StartNow(now)), state.forced(now)),
        same(after_call(state, Call::Flush), state.flushed()),
        same(after_call(state, Call::AdvanceMuted(now)), state.muted(now)),
        same(after_call(state, Call::EmitDatagram(now)), state.emitted(now)),
{
    reveal(after_call);
}

/// A happening is the calls it makes.
#[verifier::spinoff_prover]
#[verifier::rlimit(30)]
proof fn lemma_happening_is_its_calls(run: Run, happening: Happening)
    ensures
        same(run_after(run, happening).state, after_calls(run.state, calls_of(run, happening))),
{
    let state = run.state;
    match happening {
        Happening::Arrived(packet, now) => {
            lemma_few_calls(state, Call::Enqueue(packet, now), Call::Flush);
            lemma_calls(state, packet, arbitrary(), 0, now);
        },
        Happening::Folded(sample, decay) => {
            lemma_few_calls(state, Call::FoldRate(sample, decay), Call::Flush);
            lemma_calls(state, Seq::empty(), sample, decay, 0);
        },
        Happening::Ended(now) => {
            lemma_few_calls(state, Call::Flush, Call::StartNow(now));
            lemma_calls(state, Seq::empty(), arbitrary(), 0, now);
            lemma_calls(state.flushed(), Seq::empty(), arbitrary(), 0, now);
        },
        Happening::Silent(now) => {
            lemma_few_calls(state, Call::PollStart(now), Call::Flush);
            lemma_calls(state, Seq::empty(), arbitrary(), 0, now);
        },
        Happening::Woke(now) => {
            lemma_few_calls(state, Call::AdvanceMuted(now), Call::Flush);
            lemma_few_calls(state, Call::EmitDatagram(now), Call::Flush);
            lemma_calls(state, Seq::empty(), arbitrary(), 0, now);
            assert(same(run_after(run, happening).state, run.turned(now)));
        },
    }
}

/// What a happening takes on.
proof fn lemma_happening_takes_on(run: Run, happening: Happening)
    ensures
        happening matches Happening::Arrived(packet, _) ==> taken_on(calls_of(run, happening))
            == content_of(seq![packet]),
        !(happening is Arrived) ==> taken_on(calls_of(run, happening)) == Seq::<Seq<u8>>::empty(),
{
    match happening {
        Happening::Arrived(packet, now) => {
            lemma_few_taken(Call::Enqueue(packet, now), Call::Flush);
        },
        Happening::Folded(sample, decay) => {
            lemma_few_taken(Call::FoldRate(sample, decay), Call::Flush);
        },
        Happening::Ended(now) => {
            lemma_few_taken(Call::Flush, Call::StartNow(now));
        },
        Happening::Silent(now) => {
            lemma_few_taken(Call::PollStart(now), Call::Flush);
        },
        Happening::Woke(now) => {
            lemma_few_taken(Call::AdvanceMuted(now), Call::Flush);
            lemma_few_taken(Call::EmitDatagram(now), Call::Flush);
        },
    }
}

/// What is taken on in two goes.
proof fn lemma_taken_in_turn(first: Seq<Call>, rest: Seq<Call>)
    ensures
        taken_on(first + rest) == taken_on(first) + taken_on(rest),
    decreases rest.len(),
{
    if rest.len() == 0 {
        assert(first + rest =~= first);
        assert(taken_on(first) + taken_on(rest) =~= taken_on(first));
    } else {
        assert((first + rest).drop_last() =~= first + rest.drop_last());
        lemma_taken_in_turn(first, rest.drop_last());
        assert(taken_on(first + rest) =~= taken_on(first) + taken_on(rest));
    }
}

/// A run is the calls it makes, and takes on the content that arrives.
#[verifier::spinoff_prover]
pub proof fn lemma_run_is_its_calls(run: Run, happenings: Seq<Happening>)
    ensures
        same(
            run_over(run, happenings).state,
            after_calls(run.state, calls_over(run, happenings)),
        ),
        taken_on(calls_over(run, happenings)) == content_of(arrived_over(happenings)),
    decreases happenings.len(),
{
    if happenings.len() > 0 {
        let earlier = happenings.drop_last();
        let last = happenings.last();
        let before = run_over(run, earlier);
        let first = calls_over(run, earlier);
        let calls = calls_of(before, last);
        lemma_run_is_its_calls(run, earlier);
        lemma_happening_is_its_calls(before, last);
        lemma_happening_takes_on(before, last);
        lemma_calls_in_turn(run.state, first, calls);
        lemma_taken_in_turn(first, calls);
        let came = arrived_over(happenings);
        match last {
            Happening::Arrived(packet, _) => {
                assert(came =~= arrived_over(earlier) + seq![packet]);
                lemma_content_adds_up(arrived_over(earlier), seq![packet]);
            },
            _ => {
                assert(taken_on(first) + taken_on(calls) =~= content_of(came));
            },
        }
    }
}

/// A run that keeps the PCR values of its source and releases by its own clock sends
/// exactly the content that arrived: once it is over, with nothing dropped, what it
/// sent besides stuffing is what arrived besides stuffing, in the same order and byte
/// for byte, and the counters say so.
pub proof fn law_a_whole_run_sends_what_arrived(
    config: Config,
    start: Nanos,
    happenings: Seq<Happening>,
)
    requires
        config.pcr == PcrMode::Preserve,
        config.clocking == Clocking::Arrival,
        over(run_over(fresh_run(config, start), happenings)),
        run_over(fresh_run(config, start), happenings).state.stats.dropped_packets == 0,
        countable(run_over(fresh_run(config, start), happenings).state),
        arrived_over(happenings).len() <= u64::MAX,
    ensures
        ({
            let run = fresh_run(config, start);
            let stats = run_over(run, happenings).state.stats;
            &&& content_of(sent_over(run, happenings)) == content_of(arrived_over(happenings))
            &&& stats.content_packets == content_of(arrived_over(happenings)).len()
            &&& stats.null_packets == stuffing_in(sent_over(run, happenings))
        }),
{
    let run = fresh_run(config, start);
    let calls = calls_over(run, happenings);
    let after = run_over(run, happenings).state;
    lemma_run_is_its_calls(run, happenings);
    lemma_content_is_some(arrived_over(happenings));
    assert(passes_through(State::initial(config)));
    law_content_passes_through_in_order(config, calls);
    law_every_packet_is_accounted_for(config, calls);
    law_the_totals_agree(config, calls);
    assert(waiting(after) =~= Seq::<Seq<u8>>::empty());
    assert(content_of(sent_by(run.state, calls)) + waiting(after) =~= content_of(
        sent_by(run.state, calls),
    ));
    lemma_nothing_is_late(State::initial(config), calls);
    assert(in_hand(after) == 0);
}

/// Content is no more than everything.
proof fn lemma_content_is_some(packets: Seq<Seq<u8>>)
    ensures
        content_of(packets).len() <= packets.len(),
    decreases packets.len(),
{
    if packets.len() > 0 {
        lemma_content_is_some(packets.drop_last());
    }
}

/// Without a grid no packet is late for its slot.
proof fn lemma_nothing_is_late(state: State, calls: Seq<Call>)
    requires
        state.grid is None,
    ensures
        after_calls(state, calls).grid is None,
        after_calls(state, calls).stats.late_drops == state.stats.late_drops,
    decreases calls.len(),
{
    if calls.len() > 0 {
        let before = after_calls(state, calls.drop_last());
        lemma_nothing_is_late(state, calls.drop_last());
        reveal(after_call);
        match calls.last() {
            Call::EmitDatagram(now) => {
                let open = before.opened(now);
                lemma_no_slot_is_late(
                    open,
                    before.per_datagram as nat,
                    open.media.owed(now),
                    open.stalled,
                );
            },
            Call::Enqueue(packet, now) => {
                let ready = before.noted(packet, now);
                assert(ready.grid is None && ready.stats.late_drops == before.stats.late_drops);
            },
            _ => {},
        }
    }
}

/// The same of `n` slots.
proof fn lemma_no_slot_is_late(state: State, n: nat, due: u64, stalled: bool)
    requires
        state.grid is None,
    ensures
        state.packets_sent(n, due, stalled).grid is None,
        state.packets_sent(n, due, stalled).stats.late_drops == state.stats.late_drops,
    decreases n,
{
    if n > 0 {
        lemma_no_slot_is_late(state, (n - 1) as nat, due, stalled);
    }
}

} // verus!
