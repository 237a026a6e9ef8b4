//! Where the grid puts things, in slots: a PCR's, and each packet's of a run.

use vstd::prelude::*;

use crate::arith::Nanos;
use crate::pcr::{lemma_distance_is_a_difference, pcr_distance};
use crate::stream_grid::{
    even_slot, free_before, lemma_overdue_is_a_prefix, overdue, run_slot, spread, Placement,
};

verus! {

/// The slot of a PCR on the raw mapping: as many as begin by then at 1504 bits each,
/// in sixty-four bits.
pub open spec fn raw_slot(grid: Placement, pcr: u64) -> int {
    pcr * grid.map.mux_rate_bps / 40_608_000_000 % 0x1_0000_0000_0000_0000
}

/// A PCR that steps ahead by up to five seconds lands on its own slot of the grid the
/// run is on, whenever it arrives. Where that lies behind the run the clock has
/// wrapped, and the grid goes on by the slots of a whole wrap.
pub proof fn law_a_step_lands_on_its_own_slot(
    grid: Placement,
    from: u64,
    slot: u64,
    pcr: u64,
    since: Nanos,
)
    requires
        grid.open == Some((from, slot)),
        from < 2_576_980_377_600,
        pcr < 2_576_980_377_600,
        0 < (pcr - from) % 2_576_980_377_600 <= 135_000_000,
        raw_slot(grid, pcr) + grid.epoch >= slot || raw_slot(grid, pcr) + grid.epoch + raw_slot(
            grid,
            2_576_980_377_600,
        ) >= 0,
    ensures
        ({
            let landing = grid.landing(pcr, since);
            let raw = raw_slot(grid, pcr);
            let wrap = raw_slot(grid, 2_576_980_377_600);
            let epoch = if raw + grid.epoch >= slot {
                grid.epoch
            } else {
                grid.epoch + wrap
            };
            &&& !landing.after_silence
            &&& landing.epoch == epoch
            &&& landing.slot == (raw + epoch) % 0x1_0000_0000_0000_0000
        }),
{
    lemma_distance_is_a_difference(from, pcr);
    let step = pcr_distance(from, pcr) as int;
    assert(0 < step * 1000 / 27 <= 5_000_000_000);
    lemma_raw(grid, pcr);
    lemma_raw(grid, 2_576_980_377_600);
}

/// The raw mapping in plain terms.
proof fn lemma_raw(grid: Placement, pcr: u64)
    ensures
        grid.map.slot(pcr) == raw_slot(grid, pcr),
        raw_slot(grid, pcr) >= 0,
{
    assert(pcr * grid.map.mux_rate_bps >= 0) by (nonlinear_arith);
}

/// The first PCR lands on the slot that the mapping gives it.
pub proof fn law_the_first_pcr_lands_on_its_slot(grid: Placement, pcr: u64, since: Nanos)
    requires
        grid.open is None,
        grid.epoch == 0,
    ensures
        grid.landing(pcr, since).slot == raw_slot(grid, pcr),
        grid.landing(pcr, since).epoch == 0,
        !grid.landing(pcr, since).after_silence,
{
    lemma_raw(grid, pcr);
}

/// A PCR that stands still, or leaps by more than five seconds and more than twice the
/// time that the run's own has been in, is a splice: it lands right behind the packets
/// of the run, and the grid moves so that what follows goes on from there.
pub proof fn law_a_splice_lands_behind_the_run(
    grid: Placement,
    from: u64,
    slot: u64,
    pcr: u64,
    since: Nanos,
)
    requires
        grid.open == Some((from, slot)),
        from < 2_576_980_377_600,
        pcr < 2_576_980_377_600,
        grid.run.len() > 0,
        slot + grid.run.len() <= u64::MAX,
        ({
            let step = (pcr - from) % 2_576_980_377_600;
            step == 0 || (step > 135_000_000 && step * 1000 / 27 > 2 * since)
        }),
    ensures
        grid.landing(pcr, since).slot == slot + grid.run.len(),
        grid.landing(pcr, since).epoch == slot + grid.run.len() - raw_slot(grid, pcr),
        !grid.landing(pcr, since).after_silence,
{
    lemma_distance_is_a_difference(from, pcr);
    let step = pcr_distance(from, pcr) as int;
    if step > 0 {
        assert(step * 1000 / 27 > 5_000_000_000);
    }
    lemma_raw(grid, pcr);
}

/// A PCR that leaps by more than five seconds, but by no more than twice the time that
/// the run's own has been in, is one this leg lost the middle of the stream to: the
/// grid stays where it was, the PCR lands on its own slot, and the run before it is
/// ended as of the silence.
pub proof fn law_an_outage_stays_on_the_grid(
    grid: Placement,
    from: u64,
    slot: u64,
    pcr: u64,
    since: Nanos,
)
    requires
        grid.open == Some((from, slot)),
        from < 2_576_980_377_600,
        pcr < 2_576_980_377_600,
        ({
            let step = (pcr - from) % 2_576_980_377_600;
            step > 135_000_000 && step * 1000 / 27 <= 2 * since
        }),
        raw_slot(grid, pcr) + grid.epoch >= slot,
    ensures
        grid.landing(pcr, since).epoch == grid.epoch,
        grid.landing(pcr, since).slot == (raw_slot(grid, pcr) + grid.epoch)
            % 0x1_0000_0000_0000_0000,
        grid.landing(pcr, since).after_silence,
{
    lemma_distance_is_a_difference(from, pcr);
    let step = pcr_distance(from, pcr) as int;
    assert(step * 1000 / 27 > 5_000_000_000);
    assert(step * 1000 / 27 <= u64::MAX);
    lemma_raw(grid, pcr);
}

/// A packet of a run is placed at its even share of the span, unless that is taken, and
/// then in the first slot behind what is: no slot is used twice, none is left empty
/// without reason, and nothing is placed early.
pub proof fn law_a_packet_goes_in_its_share_or_behind(
    open: u64,
    span: u64,
    free: u64,
    run: Seq<Seq<u8>>,
    i: int,
)
    requires
        0 <= i < run.len(),
        run.len() * span <= u64::MAX,
        open + span + run.len() < u64::MAX,
        free + run.len() < u64::MAX,
    ensures
        ({
            let placed = spread(open, span, free, run);
            let share = open + i * span / run.len() as int;
            &&& placed.len() == run.len()
            &&& placed[i].1 == run[i]
            &&& placed[i].0 >= share
            &&& i == 0 ==> placed[i].0 == (if free >= share {
                free as int
            } else {
                share
            })
            &&& i > 0 ==> placed[i].0 > placed[i - 1].0 && (placed[i].0 == share || placed[i].0
                == placed[i - 1].0 + 1)
        }),
{
    let count = run.len() as int;
    lemma_share_fits(open, span, free, count, i);
    if i > 0 {
        lemma_share_fits(open, span, free, count, i - 1);
        assert(free_before(open, span, count, free, i) == run_slot(open, span, count, free, i - 1)
            + 1);
    } else {
        assert(free_before(open, span, count, free, 0) == free);
    }
}

/// No slot of a run runs past what can be counted.
proof fn lemma_share_fits(open: u64, span: u64, free: u64, count: int, i: int)
    requires
        0 <= i < count,
        count * span <= u64::MAX,
        open + span + count < u64::MAX,
        free + count < u64::MAX,
    ensures
        even_slot(open, span, count, i) == open + i * span / count,
        open <= even_slot(open, span, count, i) <= open + span,
        free_before(open, span, count, free, i) <= (if free >= open + span {
            free as int
        } else {
            open + span
        }) + i,
    decreases i,
{
    assert(0 <= i * span <= count * span) by (nonlinear_arith)
        requires
            0 <= i < count,
    ;
    vstd::arithmetic::div_mod::lemma_div_is_ordered(i * span, count * span, count);
    vstd::arithmetic::div_mod::lemma_div_pos_is_pos(i * span, count);
    assert(count * span == span * count) by (nonlinear_arith);
    crate::arith::lemma_exact_division(span as int, count);
    if i > 0 {
        lemma_share_fits(open, span, free, count, i - 1);
    }
}

/// Ending a run at a slot counts an overrun if the run has more packets than the slots
/// up to there, and keeps the furthest that placement has ever run past such a slot.
pub proof fn law_overruns_and_displacement_are_kept(grid: Placement, next: u64, slot: u64)
    requires
        grid.open matches Some((_, at)) && at == slot,
        grid.run.len() > 0,
        slot <= next,
        grid.overruns < u64::MAX,
    ensures
        ({
            let after = grid.closed(next);
            let past = if after.next_free > next {
                after.next_free - next
            } else {
                0
            };
            &&& after.overruns == grid.overruns + (if grid.run.len() > next - slot {
                1int
            } else {
                0int
            })
            &&& after.displacement >= grid.displacement
            &&& after.displacement >= past
            &&& after.displacement == grid.displacement || after.displacement == past
            &&& after.run.len() == 0
        }),
{
}

/// With room on the grid, ending a run adds each of its packets behind what is placed,
/// and the first slot free is the one behind the last of them.
pub proof fn law_a_run_is_placed_behind_the_rest(grid: Placement, next: u64, slot: u64)
    requires
        grid.open matches Some((_, at)) && at == slot,
        grid.run.len() > 0,
        slot <= next,
        grid.placed.len() + grid.run.len() <= grid.capacity,
        grid.run.len() * (next - slot) <= u64::MAX,
        next + grid.run.len() < u64::MAX,
        grid.next_free + grid.run.len() < u64::MAX,
    ensures
        ({
            let after = grid.closed(next);
            let n = grid.placed.len() as int;
            &&& after.placed.len() == n + grid.run.len()
            &&& after.placed.take(n) == grid.placed
            &&& forall|i: int|
                0 <= i < grid.run.len() ==> (#[trigger] after.placed[n + i]).1 == grid.run[i]
            &&& after.next_free == after.placed.last().0 + 1
        }),
{
    let after = grid.closed(next);
    let n = grid.placed.len() as int;
    let span = (next - slot) as u64;
    let count = grid.run.len() as int;
    assert(after.placed == grid.placed + spread(slot, span, grid.next_free, grid.run));
    assert(after.placed.take(n) =~= grid.placed);
    lemma_share_fits(slot, span, grid.next_free, count, count - 1);
    assert(after.placed.last().0 == run_slot(slot, span, count, grid.next_free, count - 1));
}

/// Without room the oldest go, one for each packet too many.
pub proof fn law_the_oldest_placed_are_shed(grid: Placement, next: u64)
    requires
        grid.open is Some,
        grid.run.len() > 0,
        grid.placed.len() + grid.run.len() > grid.capacity,
        grid.placed.len() + grid.run.len() - grid.capacity <= u64::MAX,
    ensures
        grid.closed(next).placed.len() == grid.capacity,
        grid.closing_drops() == grid.placed.len() + grid.run.len() - grid.capacity,
        grid.capacity >= grid.run.len() ==> forall|i: int|
            0 <= i < grid.run.len() ==> (#[trigger] grid.closed(next).placed[grid.capacity
                - grid.run.len() + i]).1 == grid.run[i],
{
}

/// What is due in a slot is what is placed there, if anything is.
pub proof fn law_what_is_placed_is_due(grid: Placement, slot: u64, packet: Seq<u8>)
    requires
        grid.wf(),
        slot < u64::MAX,
    ensures
        grid.due_at(slot) == Some(packet) <==> grid.placed.contains((slot, packet)),
{
    let n = overdue(grid.placed, slot) as int;
    lemma_overdue_is_a_prefix(grid.placed, slot);
    let rest = grid.placed.skip(n);
    if grid.placed.contains((slot, packet)) {
        let i = grid.placed.index_of((slot, packet));
        assert(grid.placed[i].0 == slot);
        assert(i >= n);
        assert(rest.len() > 0 && rest[0] == grid.placed[n]);
        if i > n {
            assert(grid.placed[n].0 < grid.placed[i].0);
        }
        assert(grid.placed[n].0 >= slot);
    }
    if grid.due_at(slot) == Some(packet) {
        assert(grid.placed[n] == (slot, packet));
    }
}

/// A run that the end of the source leaves open ends at the spacing of the one before
/// it, or packet by packet if that is wider or there was none.
pub proof fn law_an_open_run_keeps_the_last_spacing(grid: Placement, slot: u64)
    requires
        grid.open matches Some((_, at)) && at == slot,
        grid.run.len() > 0,
        grid.run.len() <= u64::MAX,
        grid.last_span matches Some((span, count)) ==> count >= 1 && span * grid.run.len()
            <= u64::MAX,
        grid.last_span matches Some((span, _)) ==> slot + span * grid.run.len() <= u64::MAX,
        slot + grid.run.len() <= u64::MAX,
    ensures
        ({
            let len = grid.run.len() as int;
            let end = grid.flush_end() - slot;
            match grid.last_span {
                None => end == len,
                Some((span, count)) => {
                    &&& end >= len
                    &&& end == len || (end * count <= span * len && span * len < (end + 1) * count)
                    &&& span * len < (end + 1) * count
                },
            }
        }),
{
    let len = grid.run.len() as int;
    match grid.last_span {
        None => {
            assert(len * len / len == len) by {
                crate::arith::lemma_exact_division(len, len);
            }
            lemma_own_spacing(grid, slot);
        },
        Some((span, count)) => {
            let scaled = span * len / count as int;
            assert(span * len >= 0) by (nonlinear_arith)
                requires
                    span >= 0,
                    len >= 0,
            ;
            vstd::arithmetic::div_mod::lemma_fundamental_div_mod(span * len, count as int);
            vstd::arithmetic::div_mod::lemma_mod_bound(span * len, count as int);
            vstd::arithmetic::div_mod::lemma_div_pos_is_pos(span * len, count as int);
            assert(scaled * count <= span * len < (scaled + 1) * count) by (nonlinear_arith)
                requires
                    span * len == count * scaled + (span * len) % (count as int),
                    0 <= (span * len) % (count as int) < count,
            ;
            assert(scaled <= span * len) by (nonlinear_arith)
                requires
                    scaled * count <= span * len,
                    count >= 1,
                    scaled >= 0,
            ;
            let end = grid.flush_end() - slot;
            assert(end >= scaled);
            assert((scaled + 1) * count <= (end + 1) * count) by (nonlinear_arith)
                requires
                    end >= scaled,
                    count >= 1,
            ;
        },
    }
}

/// A first run on its own takes a slot for each packet.
proof fn lemma_own_spacing(grid: Placement, slot: u64)
    requires
        grid.open matches Some((_, at)) && at == slot,
        grid.last_span is None,
        0 < grid.run.len() <= u64::MAX,
        slot + grid.run.len() <= u64::MAX,
    ensures
        grid.flush_end() == slot + grid.run.len(),
{
    let len = grid.run.len() as int;
    crate::arith::lemma_exact_division(len, len);
    if len * len > u64::MAX {
        vstd::arithmetic::div_mod::lemma_div_is_ordered(u64::MAX as int, len * len, len);
        vstd::arithmetic::div_mod::lemma_div_pos_is_pos(u64::MAX as int, len);
    }
}

/// Before the first PCR there is no grid to place on, and a packet without one is
/// dropped. From then on such a packet joins the run that is open and nothing is dropped
/// for it; and a packet with a PCR opens a run of its own, at the slot where it lands.
pub proof fn law_a_pcr_opens_a_run(grid: Placement, packet: Seq<u8>, now: Nanos)
    ensures
        ({
            let after = grid.pushed(packet, now);
            match crate::pcr::pcr_of(packet) {
                None => if grid.open is None {
                    after == grid && grid.push_drops(packet) == 1
                } else {
                    &&& after.run == grid.run.push(packet)
                    &&& after.placed == grid.placed
                    &&& after.open == grid.open
                    &&& after.open_at == grid.open_at
                    &&& grid.push_drops(packet) == 0
                },
                Some(pcr) => {
                    let since = match grid.open_at {
                        Some(at) => if now >= at {
                            (now - at) as Nanos
                        } else {
                            0
                        },
                        None => 0,
                    };
                    &&& after.run == seq![packet]
                    &&& after.open == Some((pcr, grid.landing(pcr, since).slot))
                    &&& after.open_at == Some(now)
                    &&& after.epoch == grid.landing(pcr, since).epoch
                },
            }
        }),
{
}

/// The run before a PCR is spread up to the slot where that PCR lands, unless the leg
/// lost the middle of the stream: then it ends where it would have at the end of the
/// source, and is not drawn out over what was lost.
pub proof fn law_a_run_is_not_drawn_out_over_a_silence(
    grid: Placement,
    packet: Seq<u8>,
    pcr: u64,
    now: Nanos,
    opened_at: Nanos,
)
    requires
        crate::pcr::pcr_of(packet) == Some(pcr),
        grid.open_at == Some(opened_at),
        opened_at <= now,
    ensures
        ({
            let landing = grid.landing(pcr, (now - opened_at) as Nanos);
            let after = grid.pushed(packet, now);
            &&& landing.after_silence ==> after.placed == grid.flushed().placed && after.next_free
                == grid.flushed().next_free
            &&& !landing.after_silence ==> after.placed == grid.closed(landing.slot).placed
                && after.next_free == grid.closed(landing.slot).next_free
        }),
{
}

} // verus!
