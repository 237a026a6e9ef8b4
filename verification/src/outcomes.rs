//! What a run comes to at its edges: when it waits, reports and gives up, the rate it
//! locks, how its datagrams are stamped, and where packets are found in its input.

use vstd::prelude::*;

use crate::arith::{Nanos, Ratio};
use crate::config::{PcrPositionPolicy, StallPolicy};
use crate::estimate::content_bitrate;
use crate::observe::SourceState;
use crate::output::{law_rtp_header_reads_back, rtp_header, timestamp_at};
use crate::pacer::{auto_rate, clocked_count, Run, Warmup};
use crate::packet::Packet;
use crate::pcr::pcr_of;
use crate::source::{left_of, packets_in};

verus! {

// --- the run ----------------------------------------------------------------------------

/// Health is reported at once when the state changes, and every quarter of a second
/// while it does not: what the state is, with the counters as they stand.
pub proof fn law_health_is_reported_every_quarter_second(
    run: Run,
    source: SourceState,
    now: Nanos,
)
    requires
        run.reported matches Some((_, at)) ==> at <= now,
    ensures
        ({
            let owed = run.reported is None || run.reported->Some_0.0 != source || now
                - run.reported->Some_0.1 >= 250_000_000;
            &&& owed <==> run.report(source, now) is Some
            &&& run.report(source, now) matches Some(health) ==> health.source == source
                && health.stats == run.state.snapshot()
            &&& owed ==> run.after_report(source, now).reported == Some((source, now))
            &&& !owed ==> run.after_report(source, now).reported == run.reported
        }),
{
}

/// How long a packet is waited for before output starts: a quarter of a second once
/// there has been content, before that the silence that ends a source's life, and a
/// second where no silence does.
pub proof fn law_how_long_a_packet_is_waited_for(run: Run)
    ensures
        run.state.last_content_at is Some ==> run.budget() == 250_000_000,
        run.state.last_content_at is None ==> run.budget() == (match run.state.stall.limit(
            run.state.target,
        ) {
            Some(limit) => limit,
            None => 1_000_000_000,
        }),
{
}

/// A run that has not started to send is given up, under the policy that does, once
/// nothing has come for the limit: since the last content, or since the run began.
pub proof fn law_when_a_run_is_given_up(run: Run, now: Nanos)
    requires
        run.started_at <= now,
        run.state.last_content_at matches Some(last) ==> last <= now,
    ensures
        ({
            let since = match run.state.last_content_at {
                Some(last) => last,
                None => run.started_at,
            };
            let limit = run.state.stall.limit(run.state.target);
            &&& run.unheard(now) == now - since
            &&& run.gives_up(now) <==> run.stall_policy == StallPolicy::Fail
                && run.state.anchor is None && limit is Some && now - since >= limit->Some_0
        }),
{
}

/// A datagram's due time is used up, whatever comes of it: a source that is gone has its
/// slots muted or, under the policy that ends the run, left alone, and in every other
/// case they are sent.
pub proof fn law_what_comes_of_a_due_time(run: Run, now: Nanos)
    requires
        run.state.slot + run.state.per_datagram <= u64::MAX,
        run.state.stats.muted_packets + run.state.per_datagram <= u64::MAX,
    ensures
        ({
            let gone = run.state.source(now) is Stalled;
            let after = run.turned(now);
            &&& gone && run.stall_policy == StallPolicy::Mute ==> {
                &&& after.slot == run.state.slot + run.state.per_datagram
                &&& after.stats.output_packets == run.state.stats.output_packets
                &&& after.stats.muted_packets == run.state.stats.muted_packets
                    + run.state.per_datagram
            }
            &&& gone && run.stall_policy == StallPolicy::Fail ==> after == run.state
            &&& !gone || run.stall_policy == StallPolicy::Continue ==> after == run.state.emitted(
                now,
            )
        }),
{
}

/// A source whose PCR positions have strayed further than the output may be behind ends
/// the run, under the policy that asks for it, and only then.
pub proof fn law_when_straying_ends_a_run(run: Run)
    ensures
        run.misplaced() <==> run.position_policy == PcrPositionPolicy::Fail && run.state.grid is Some
            && run.state.grid->Some_0.displacement > run.state.max_latency_packets,
{
}

// --- the rate that is measured ----------------------------------------------------------

/// The rate locked is what was measured and the headroom on top of it, in whole bits a
/// second, and four megabits where nothing could be measured.
pub proof fn law_the_rate_locked_has_headroom(packets: Seq<Packet>, headroom: Ratio)
    requires
        headroom.denominator >= 1,
    ensures
        content_bitrate(packets) is None ==> auto_rate(packets, headroom) == 4_000_000,
        content_bitrate(packets) matches Some(content) ==> {
            let more = auto_rate(packets, headroom) - content;
            &&& auto_rate(packets, headroom) >= 1
            &&& content > 0 && auto_rate(packets, headroom) < u64::MAX ==> {
                &&& more * headroom.denominator <= content * headroom.numerator
                &&& content * headroom.numerator < (more + 1) * headroom.denominator
            }
        },
{
    if let Some(content) = content_bitrate(packets) {
        let n = content * headroom.numerator;
        let d = headroom.denominator as int;
        assert(n >= 0) by (nonlinear_arith)
            requires
                n == content * headroom.numerator,
        ;
        vstd::arithmetic::div_mod::lemma_fundamental_div_mod(n, d);
        vstd::arithmetic::div_mod::lemma_mod_bound(n, d);
        vstd::arithmetic::div_mod::lemma_div_pos_is_pos(n, d);
        let q = n / d;
        assert(q * d <= n < (q + 1) * d) by (nonlinear_arith)
            requires
                n == d * q + n % d,
                0 <= n % d < d,
        ;
    }
}

/// The warm-up is over after eight PCRs or twenty thousand packets.
pub proof fn law_what_is_enough_to_measure(packets: Seq<Packet>)
    ensures
        Warmup::enough(packets) <==> packets.filter(|p: Packet| pcr_of(p@) is Some).len() >= 8
            || packets.len() >= 20_000,
{
    lemma_clocked_are_those_with_a_pcr(packets);
}

/// Counting PCRs is counting the packets with one.
proof fn lemma_clocked_are_those_with_a_pcr(packets: Seq<Packet>)
    ensures
        clocked_count(packets) == packets.filter(|p: Packet| pcr_of(p@) is Some).len(),
    decreases packets.len(),
{
    let clocked = |p: Packet| pcr_of(p@) is Some;
    reveal(Seq::filter);
    if packets.len() > 0 {
        lemma_clocked_are_those_with_a_pcr(packets.drop_last());
        assert(clocked(packets.last()) == (pcr_of(packets.last()@) is Some));
    }
}

// --- RTP ----------------------------------------------------------------------------------

/// An RTP header is twelve octets: version 2 with nothing else set, payload type 33,
/// then the number, the timestamp and the source, each most significant octet first.
pub proof fn law_an_rtp_header_is_laid_out(sequence: u16, timestamp: u32, ssrc: u32)
    ensures
        ({
            let h = rtp_header(sequence, timestamp, ssrc);
            &&& h.len() == 12
            &&& h[0] == 128
            &&& h[1] == 33
            &&& h[2] * 256 + h[3] == sequence
            &&& h[4] * 16_777_216 + h[5] * 65_536 + h[6] * 256 + h[7] == timestamp
            &&& h[8] * 16_777_216 + h[9] * 65_536 + h[10] * 256 + h[11] == ssrc
        }),
{
    law_rtp_header_reads_back(sequence, timestamp, ssrc);
}

/// The timestamp of a moment is the ticks of the 90 kHz clock up to it, in thirty-two
/// bits: between two moments it moves by the ticks of the time between them, to within
/// the one that whole numbers leave.
pub proof fn law_moments_are_stamped_at_90_khz(one: Nanos, other: Nanos)
    requires
        one <= other,
    ensures
        ({
            let ticks = (other - one) * 90_000 / 1_000_000_000;
            ||| timestamp_at(other) == (timestamp_at(one) + ticks) % 0x1_0000_0000
            ||| timestamp_at(other) == (timestamp_at(one) + ticks + 1) % 0x1_0000_0000
        }),
        one < 11_111 ==> timestamp_at(one) == 0,
{
    let (a, b) = (one * 9, (other - one) * 9);
    assert(other * 9 == a + b);
    crate::pcr::lemma_floor_of_sum(a, b, 100_000);
    assert((other - one) * 90_000 / 1_000_000_000 == b / 100_000);
}

// --- finding packets ----------------------------------------------------------------------

/// A packet in the right place is found as it stands, and the rest is read on from
/// behind it.
pub proof fn law_a_packet_is_found_where_it_stands(packet: Seq<u8>, rest: Seq<u8>)
    requires
        packet.len() == 188,
        packet[0] == 0x47,
    ensures
        packets_in(packet + rest) == seq![packet] + packets_in(rest),
        left_of(packet + rest) == left_of(rest),
{
    let all = packet + rest;
    assert(all.take(188) =~= packet);
    assert(all.skip(188) =~= rest);
}

/// What is out of step is passed over: bytes in front that are no sync byte change
/// nothing of what is found behind them.
pub proof fn law_bytes_out_of_step_are_passed_over(junk: Seq<u8>, rest: Seq<u8>)
    requires
        forall|i: int| 0 <= i < junk.len() ==> #[trigger] junk[i] != 0x47,
    ensures
        packets_in(junk + rest) == packets_in(rest),
    decreases junk.len(),
{
    let all = junk + rest;
    if junk.len() == 0 {
        assert(all =~= rest);
    } else {
        let shorter = junk.skip(1);
        assert forall|i: int| 0 <= i < shorter.len() implies #[trigger] shorter[i] != 0x47 by {
            assert(shorter[i] == junk[i + 1]);
        }
        law_bytes_out_of_step_are_passed_over(shorter, rest);
        assert(all.skip(1) =~= shorter + rest);
        assert(all[0] == junk[0]);
        if all.len() < 188 {
            assert(rest.len() < 188);
        }
    }
}

/// A stream of packets and nothing else is found whole, packet by packet, and what is
/// left is what was short of one.
pub proof fn law_a_clean_stream_is_found_whole(packets: Seq<Seq<u8>>, tail: Seq<u8>)
    requires
        forall|i: int|
            0 <= i < packets.len() ==> (#[trigger] packets[i]).len() == 188 && packets[i][0]
                == 0x47,
        tail.len() < 188,
    ensures
        packets_in(packets.flatten() + tail) == packets,
        left_of(packets.flatten() + tail) == tail,
    decreases packets.len(),
{
    if packets.len() == 0 {
        assert(packets.flatten() + tail =~= tail);
        assert(packets_in(tail) =~= packets);
    } else {
        let rest = packets.drop_first();
        assert forall|i: int| 0 <= i < rest.len() implies (#[trigger] rest[i]).len() == 188
            && rest[i][0] == 0x47 by {
            assert(rest[i] == packets[i + 1]);
        }
        law_a_clean_stream_is_found_whole(rest, tail);
        assert(packets[0].len() == 188);
        law_a_packet_is_found_where_it_stands(packets[0], rest.flatten() + tail);
        assert(packets.flatten() =~= packets[0] + rest.flatten());
        assert(packets.flatten() + tail =~= packets[0] + (rest.flatten() + tail));
        assert(seq![packets[0]] + rest =~= packets);
    }
}

} // verus!
