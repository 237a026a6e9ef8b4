//! Measuring the content bitrate of a run of transport packets from its PCR.

use vstd::prelude::*;

use crate::arith::{cap, capped, product};
use crate::null_insertion::NULL_PID;
use crate::packet::{pid_of, Packet};
use crate::pcr::{forward_delta, pcr_distance, pcr_of, PACKET_TICKS};

verus! {

/// Where in `packets` the first PCR sample is.
pub open spec fn first_clocked(packets: Seq<Packet>) -> Option<int>
    decreases packets.len(),
{
    if packets.len() == 0 {
        None
    } else {
        match first_clocked(packets.drop_last()) {
            Some(at) => Some(at),
            None => if pcr_of(packets.last()@) is Some {
                Some(packets.len() - 1)
            } else {
                None
            },
        }
    }
}

/// Where in `packets` the last PCR sample is.
pub open spec fn last_clocked(packets: Seq<Packet>) -> Option<int>
    decreases packets.len(),
{
    if packets.len() == 0 {
        None
    } else if pcr_of(packets.last()@) is Some {
        Some(packets.len() - 1)
    } else {
        last_clocked(packets.drop_last())
    }
}

/// How many of `packets` are not stuffing.
pub open spec fn content_count(packets: Seq<Packet>) -> nat
    decreases packets.len(),
{
    if packets.len() == 0 {
        0
    } else {
        content_count(packets.drop_last()) + if pid_of(packets.last()@) != NULL_PID {
            1nat
        } else {
            0nat
        }
    }
}

/// The content rate of a run: the bits of its content packets from the first PCR
/// sample to the last, over the time those samples span.
pub open spec fn content_bitrate(packets: Seq<Packet>) -> Option<u64> {
    match (first_clocked(packets), last_clocked(packets)) {
        (Some(first), Some(last)) => {
            let span = pcr_distance(
                pcr_of(packets[first]@)->Some_0,
                pcr_of(packets[last]@)->Some_0,
            );
            if last <= first || span == 0 {
                None
            } else {
                Some(
                    capped(
                        content_count(packets.subrange(first, last + 1)) * PACKET_TICKS
                            / span as int,
                    ),
                )
            }
        },
        _ => None,
    }
}

/// Estimate the media/content bitrate of `packets`, in bits per second, from
/// their PCR clock.
///
/// It divides the content bytes carried between the first and last PCR sample by
/// the PCR time they span. Null/stuffing packets (PID `0x1FFF`) are excluded, so
/// the result is the true *content* rate, not a padded mux rate. This is what
/// [`Bitrate::Auto`](crate::Bitrate::Auto) uses to self-configure. Returns
/// `None` when the run has fewer than two PCR samples or a zero span.
pub fn estimate_content_bitrate(packets: &[Packet]) -> (bps: Option<u64>)
    ensures
        bps == content_bitrate(packets@),
{
    let mut first: Option<(usize, u64)> = None;
    let mut last: Option<(usize, u64)> = None;
    let n: usize = packets.len();
    for index in 0..n
        invariant
            n == packets@.len(),
            clocked_at(packets@, first_clocked(packets@.take(index as int)), first),
            clocked_at(packets@, last_clocked(packets@.take(index as int)), last),
    {
        assert(packets@.take(index + 1).drop_last() =~= packets@.take(index as int));
        if let Some(pcr) = packets[index].pcr() {
            if first.is_none() {
                first = Some((index, pcr));
            }
            last = Some((index, pcr));
        }
    }
    assert(packets@.take(n as int) =~= packets@);
    match (first, last) {
        (Some((first_index, first_pcr)), Some((last_index, last_pcr))) => {
            if last_index <= first_index {
                return None;
            }
            let span_ticks: u64 = forward_delta(first_pcr, last_pcr);
            if span_ticks == 0 {
                return None;
            }
            let content: u64 = count_content(packets, first_index, last_index);
            let ticks: u128 = product(content, PACKET_TICKS);
            Some(cap(ticks / (span_ticks as u128)))
        },
        _ => None,
    }
}

/// Whether `found` is the sample at position `at`.
spec fn clocked_at(packets: Seq<Packet>, at: Option<int>, found: Option<(usize, u64)>) -> bool {
    match (at, found) {
        (None, None) => true,
        (Some(i), Some((j, pcr))) => i == j && 0 <= i < packets.len() && pcr_of(packets[i]@)
            == Some(pcr),
        _ => false,
    }
}

/// Count the content packets from `first` to `last`, both included.
fn count_content(packets: &[Packet], first: usize, last: usize) -> (content: u64)
    requires
        first <= last < packets@.len(),
    ensures
        content == content_count(packets@.subrange(first as int, last + 1)),
{
    let n: usize = packets.len();
    let mut content: u64 = 0;
    let mut at: usize = first;
    let end: usize = last + 1;
    assert(packets@.subrange(first as int, first as int).len() == 0);
    while at < end
        invariant
            first <= at <= end,
            end == last + 1,
            end <= n == packets@.len(),
            content <= at - first,
            content == content_count(packets@.subrange(first as int, at as int)),
        decreases end - at,
    {
        let ghost longer = packets@.subrange(first as int, at + 1);
        assert(longer.drop_last() =~= packets@.subrange(first as int, at as int));
        if packets[at].pid() != NULL_PID {
            content += 1;
        }
        at += 1;
    }
    content
}

/// Stuffing does not count: a run measures the same with a null packet set into it,
/// wherever that is.
pub proof fn law_stuffing_is_not_content(packets: Seq<Packet>, at: int, null: Packet)
    requires
        0 <= at <= packets.len(),
        pid_of(null@) == NULL_PID,
        pcr_of(null@) is None,
    ensures
        content_count(packets.insert(at, null)) == content_count(packets),
        content_bitrate(packets.insert(at, null)) == content_bitrate(packets),
{
    let longer = packets.insert(at, null);
    lemma_insertion_shifts(packets, at, null);
    lemma_samples_are_inside(packets);
    match (first_clocked(packets), last_clocked(packets)) {
        (Some(first), Some(last)) => {
            let run = packets.subrange(first, last + 1);
            let wider = longer.subrange(shifted(first, at), shifted(last, at) + 1);
            if first < at <= last {
                assert(wider =~= run.insert(at - first, null));
                lemma_insertion_shifts(run, at - first, null);
            } else {
                assert(wider =~= run);
            }
        },
        _ => {},
    }
}

/// Where position `i` of a run is once something has been set in at `at`.
spec fn shifted(i: int, at: int) -> int {
    if i < at {
        i
    } else {
        i + 1
    }
}

/// A null packet set into a run moves the samples behind it by one place.
proof fn lemma_insertion_shifts(packets: Seq<Packet>, at: int, null: Packet)
    requires
        0 <= at <= packets.len(),
        pid_of(null@) == NULL_PID,
        pcr_of(null@) is None,
    ensures
        content_count(packets.insert(at, null)) == content_count(packets),
        first_clocked(packets.insert(at, null)) == (match first_clocked(packets) {
            Some(i) => Some(shifted(i, at)),
            None => None,
        }),
        last_clocked(packets.insert(at, null)) == (match last_clocked(packets) {
            Some(i) => Some(shifted(i, at)),
            None => None,
        }),
    decreases packets.len(),
{
    let longer = packets.insert(at, null);
    lemma_samples_are_inside(packets);
    if at == packets.len() {
        assert(longer.drop_last() =~= packets);
    } else {
        lemma_insertion_shifts(packets.drop_last(), at, null);
        assert(longer.drop_last() =~= packets.drop_last().insert(at, null));
        assert(longer.last() == packets.last());
    }
}

/// A position found is a position in the run, and carries a sample.
proof fn lemma_samples_are_inside(packets: Seq<Packet>)
    ensures
        first_clocked(packets) matches Some(i) ==> 0 <= i < packets.len() && pcr_of(packets[i]@)
            is Some,
        last_clocked(packets) matches Some(i) ==> 0 <= i < packets.len() && pcr_of(packets[i]@)
            is Some,
        first_clocked(packets) is Some <==> last_clocked(packets) is Some,
        first_clocked(packets) is Some ==> first_clocked(packets)->Some_0 <= last_clocked(
            packets,
        )->Some_0,
    decreases packets.len(),
{
    if packets.len() > 0 {
        lemma_samples_are_inside(packets.drop_last());
    }
}

/// The window measured runs from the first PCR of the run to the very last, and the
/// rate is what the content in it, both ends included, comes to over the time that
/// those two PCRs span.
///
/// However many samples lie between the two, they do not matter. The rate is the
/// largest whole number of bits per second that the content covers: 1504 bits for
/// each packet off the null PID, over a 27 MHz clock that wraps at 2^33 * 300.
pub proof fn law_the_window_runs_from_the_first_pcr_to_the_last(
    packets: Seq<Packet>,
    first: int,
    last: int,
    from: u64,
    to: u64,
)
    requires
        0 <= first < last < packets.len(),
        pcr_of(packets[first]@) == Some(from),
        pcr_of(packets[last]@) == Some(to),
        forall|i: int| 0 <= i < first ==> pcr_of((#[trigger] packets[i])@) is None,
        forall|i: int| last < i < packets.len() ==> pcr_of((#[trigger] packets[i])@) is None,
        from < 2_576_980_377_600,
        to < 2_576_980_377_600,
        from != to,
    ensures
        ({
            let content = packets.subrange(first, last + 1).filter(
                |p: Packet| (p@[1] as int % 32) * 256 + p@[2] != 0x1fff,
            ).len() as int;
            let span = (to - from) % 2_576_980_377_600;
            let bits = content * 1504 * 27_000_000;
            &&& content_bitrate(packets) matches Some(bps)
            &&& bps * span <= bits
            &&& bits < (bps + 1) * span || bps == u64::MAX
        }),
{
    let run = packets.subrange(first, last + 1);
    let on_content = |p: Packet| (p@[1] as int % 32) * 256 + p@[2] != 0x1fff;
    let bits = run.filter(on_content).len() as int * 1504 * 27_000_000;
    let span = (to - from) % 2_576_980_377_600;
    lemma_first_is_found(packets, first);
    lemma_last_is_found(packets, last);
    lemma_content_is_what_is_not_null(run);
    assert(span == pcr_distance(from, to)) by {
        if to < from {
            vstd::arithmetic::div_mod::lemma_mod_add_multiples_vanish(
                to - from,
                2_576_980_377_600,
            );
            vstd::arithmetic::div_mod::lemma_small_mod(
                (2_576_980_377_600 + to - from) as nat,
                2_576_980_377_600,
            );
        } else {
            vstd::arithmetic::div_mod::lemma_small_mod((to - from) as nat, 2_576_980_377_600);
        }
    }
    let whole = bits / span;
    vstd::arithmetic::div_mod::lemma_fundamental_div_mod(bits, span);
    vstd::arithmetic::div_mod::lemma_mod_bound(bits, span);
    assert(whole * span <= bits < (whole + 1) * span) by (nonlinear_arith)
        requires
            bits == span * whole + bits % span,
            0 <= bits % span < span,
    ;
    vstd::arithmetic::div_mod::lemma_div_pos_is_pos(bits, span);
    if whole > u64::MAX {
        assert(u64::MAX * span <= bits) by (nonlinear_arith)
            requires
                whole > u64::MAX,
                span >= 0,
                whole * span <= bits,
        ;
    }
}

/// A run with fewer than two PCRs, or whose first and last PCR are the same, gives
/// no rate.
pub proof fn law_no_span_no_rate(packets: Seq<Packet>)
    requires
        forall|i: int, j: int|
            0 <= i < j < packets.len() && pcr_of((#[trigger] packets[i])@) is Some && pcr_of(
                (#[trigger] packets[j])@,
            ) is Some && (forall|k: int|
                0 <= k < i || j < k < packets.len() ==> pcr_of((#[trigger] packets[k])@) is None)
                ==> pcr_of(packets[i]@) == pcr_of(packets[j]@),
    ensures
        content_bitrate(packets) is None,
{
    lemma_samples_are_inside(packets);
    lemma_nothing_outside_the_samples(packets);
    match (first_clocked(packets), last_clocked(packets)) {
        (Some(first), Some(last)) => {
            if first < last {
                assert(pcr_of(packets[first]@) == pcr_of(packets[last]@));
            }
        },
        _ => {},
    }
}

/// No sample comes before the first, and none after the last.
proof fn lemma_nothing_outside_the_samples(packets: Seq<Packet>)
    ensures
        first_clocked(packets) matches Some(at) ==> forall|i: int|
            0 <= i < at ==> pcr_of((#[trigger] packets[i])@) is None,
        last_clocked(packets) matches Some(at) ==> forall|i: int|
            at < i < packets.len() ==> pcr_of((#[trigger] packets[i])@) is None,
        first_clocked(packets) is None ==> forall|i: int|
            0 <= i < packets.len() ==> pcr_of((#[trigger] packets[i])@) is None,
    decreases packets.len(),
{
    if packets.len() > 0 {
        let shorter = packets.drop_last();
        lemma_nothing_outside_the_samples(shorter);
        lemma_samples_are_inside(shorter);
        assert forall|i: int| 0 <= i < packets.len() - 1 implies #[trigger] packets[i]
            == shorter[i] by {}
    }
}

/// A sample with none before it is the first.
proof fn lemma_first_is_found(packets: Seq<Packet>, first: int)
    requires
        0 <= first < packets.len(),
        pcr_of(packets[first]@) is Some,
        forall|i: int| 0 <= i < first ==> pcr_of((#[trigger] packets[i])@) is None,
    ensures
        first_clocked(packets) == Some(first),
{
    lemma_samples_are_inside(packets);
    lemma_nothing_outside_the_samples(packets);
    match first_clocked(packets) {
        Some(at) => {
            if at < first {
                assert(pcr_of(packets[at]@) is None);
            } else if first < at {
                assert(pcr_of(packets[first]@) is None);
            }
        },
        None => {
            assert(pcr_of(packets[first]@) is None);
        },
    }
}

/// A sample with none behind it is the last.
proof fn lemma_last_is_found(packets: Seq<Packet>, last: int)
    requires
        0 <= last < packets.len(),
        pcr_of(packets[last]@) is Some,
        forall|i: int| last < i < packets.len() ==> pcr_of((#[trigger] packets[i])@) is None,
    ensures
        last_clocked(packets) == Some(last),
{
    lemma_samples_are_inside(packets);
    lemma_nothing_outside_the_samples(packets);
    match last_clocked(packets) {
        Some(at) => {
            if last < at {
                assert(pcr_of(packets[at]@) is None);
            } else if at < last {
                assert(pcr_of(packets[last]@) is None);
            }
        },
        None => {
            assert(pcr_of(packets[last]@) is None);
        },
    }
}

/// Counting content is counting the packets that are off the null PID.
proof fn lemma_content_is_what_is_not_null(run: Seq<Packet>)
    ensures
        content_count(run) == run.filter(
            |p: Packet| (p@[1] as int % 32) * 256 + p@[2] != 0x1fff,
        ).len(),
    decreases run.len(),
{
    let on_content = |p: Packet| (p@[1] as int % 32) * 256 + p@[2] != 0x1fff;
    reveal(Seq::filter);
    if run.len() > 0 {
        lemma_content_is_what_is_not_null(run.drop_last());
        assert(on_content(run.last()) == (pid_of(run.last()@) != NULL_PID));
    }
}

} // verus!
