//! What a run says about itself, as lines of text.

use vstd::prelude::*;
use vstd::string::*;

use crate::arith::{Ratio, NANOS_PER_MILLI};
use crate::cli::{Invocation, Route};
use crate::config::{Clocking, Latency, PcrMode};
use crate::observe::{Health, SourceState};
use crate::rounding::{
    in_parts, law_parts_are_to_the_nearest, law_percentages_are_to_the_nearest, percent_in_tenths,
    quotient, quotient_in_parts, times,
};
use crate::stats::Stats;
use crate::text::{
    decimal, hundredths, put, put_hundredths, put_long_number, put_number, put_tenths,
    put_thousandths, tenths, thousandths,
};

verus! {

/// The share of stuffing in the output, in thousandths.
pub open spec fn stuffing_per_mille(stats: Stats) -> nat {
    let share = stats.stuffing();
    in_parts(quotient(share.numerator as int, share.denominator as int), 1000) as nat
}

/// The percentage of stuffing in the output, in tenths.
pub open spec fn stuffing_percent(stats: Stats) -> nat {
    let share = stats.stuffing();
    in_parts(times(quotient(share.numerator as int, share.denominator as int), 100), 10) as nat
}

/// A burst of `packets` in hundredths of a megabyte.
pub open spec fn burst_megabytes(packets: u64) -> nat {
    in_parts(quotient(packets * 188, 1_000_000), 100) as nat
}

/// What the depths are said to be.
pub open spec fn depth_text(latency: Latency) -> Seq<char> {
    match latency {
        Latency::Fixed { target, max } => decimal((target / NANOS_PER_MILLI) as nat)
            + " ms latency (cap "@ + decimal((max / NANOS_PER_MILLI) as nat) + " ms)"@,
        Latency::Adaptive { floor, ceiling, .. } => "latency sized from arrival, "@ + decimal(
            (floor / NANOS_PER_MILLI) as nat,
        ) + "-"@ + decimal((ceiling / NANOS_PER_MILLI) as nat) + " ms"@,
    }
}

/// Where the output is said to go.
pub open spec fn target_text(route: Route, dest: Seq<char>) -> Seq<char> {
    match route {
        Route::Stdout => "stdout (raw ts)"@,
        Route::Rtp => "rtp://"@ + dest,
        Route::Udp => "udp://"@ + dest,
    }
}

/// What is said before a run starts.
pub open spec fn announcement_text(i: Invocation) -> Seq<char> {
    "mpegts-pacer: -> "@ + target_text(i.destined(), i.dest@) + " @ "@ + i.rate@ + " b/s, "@ + (
    match i.config.pcr {
        PcrMode::Regenerate => "regenerate PCR"@,
        PcrMode::Preserve => "preserve PCR"@,
    }) + (match i.config.clocking {
        Clocking::Stream => ", stream-clocked"@,
        Clocking::Arrival => Seq::empty(),
    }) + ", "@ + depth_text(i.config.latency)
}

/// The name of a state.
pub open spec fn state_text(source: SourceState) -> Seq<char> {
    match source {
        SourceState::Priming => "Priming"@,
        SourceState::Live => "Live"@,
        SourceState::Starved => "Starved"@,
        SourceState::Stalled => "Stalled"@,
    }
}

/// What is said of a change of state.
pub open spec fn transition_text(health: Health) -> Seq<char> {
    match health.source {
        SourceState::Stalled => "mpegts-pacer: SOURCE STALLED (stall #"@ + decimal(
            health.stats.stalls as nat,
        ) + ", "@ + decimal(health.stats.content_gap_max_ms as nat) + " ms without content)"@,
        SourceState::Live => "mpegts-pacer: source Live (arrival lead "@ + decimal(
            health.stats.arrival_lead_ms as nat,
        ) + " ms, holding "@ + decimal(health.stats.latency_target_ms as nat) + " ms)"@,
        other => "mpegts-pacer: source "@ + state_text(other),
    }
}

/// One counter line.
pub open spec fn sample_text(seconds: u64, health: Health) -> Seq<char> {
    let s = health.stats;
    "mpegts-pacer: sample t="@ + decimal(seconds as nat) + " state="@ + state_text(health.source)
        + " out="@ + decimal(s.output_packets as nat) + " content="@ + decimal(
        s.content_packets as nat,
    ) + " null="@ + decimal(s.null_packets as nat) + " stuffing="@ + thousandths(
        stuffing_per_mille(s),
    ) + " dropped="@ + decimal(s.dropped_packets as nat) + " late_drops="@ + decimal(
        s.late_drops as nat,
    ) + " underruns="@ + decimal(s.underruns as nat) + " stalls="@ + decimal(s.stalls as nat)
        + " muted="@ + decimal(s.muted_packets as nat) + " resyncs="@ + decimal(s.resyncs as nat)
        + " pcr_inserted="@ + decimal(s.pcr_inserted as nat) + " buffer="@ + decimal(
        s.buffer_packets as nat,
    ) + " buffer_high_water="@ + decimal(s.buffer_high_water as nat) + " cushion_ms="@ + decimal(
        s.latency_target_ms as nat,
    ) + " lead_ms="@ + decimal(s.arrival_lead_ms as nat) + " media_rate_bps="@ + decimal(
        s.media_rate_bps as nat,
    ) + " content_gap_max_ms="@ + decimal(s.content_gap_max_ms as nat) + " pcr_displacement="@
        + decimal(s.pcr_position_displacement as nat)
}

/// What came out of a run.
pub open spec fn totals_text(s: Stats) -> Seq<char> {
    "mpegts-pacer: done. output_packets="@ + decimal(s.output_packets as nat) + " content="@
        + decimal(s.content_packets as nat) + " null="@ + decimal(s.null_packets as nat) + " ("@
        + tenths(stuffing_percent(s)) + "% stuffing) pcr_inserted="@ + decimal(
        s.pcr_inserted as nat,
    ) + " stripped_nulls="@ + decimal(s.input_nulls_stripped as nat) + " dropped="@ + decimal(
        s.dropped_packets as nat,
    ) + " late_drops="@ + decimal(s.late_drops as nat) + " resyncs="@ + decimal(s.resyncs as nat)
        + " start_backlog="@ + decimal(s.start_backlog as nat) + " underruns="@ + decimal(
        s.underruns as nat,
    ) + " stalls="@ + decimal(s.stalls as nat) + " muted="@ + decimal(s.muted_packets as nat)
        + " max_content_gap="@ + decimal(s.content_gap_max_ms as nat) + " ms"@
}

/// What went into it: the arrival shape the run saw, in the terms an external
/// cadence instrument reports it.
pub open spec fn arrival_text(s: Stats) -> Seq<char> {
    "mpegts-pacer: arrival. bursts="@ + decimal(s.bursts as nat) + " max_burst="@ + decimal(
        s.burst_max_packets as nat,
    ) + " packets ("@ + hundredths(burst_megabytes(s.burst_max_packets)) + " MB) lead="@
        + decimal(s.arrival_lead_ms as nat) + " ms cushion="@ + decimal(
        s.latency_target_ms as nat,
    ) + " ms buffer_high_water="@ + decimal(s.buffer_high_water as nat) + " packets media_rate="@
        + decimal(s.media_rate_bps as nat) + " b/s"@
}

/// How far the source's PCR positions strayed from its values.
pub open spec fn position_text(s: Stats) -> Seq<char> {
    "mpegts-pacer: pcr position. overrun_intervals="@ + decimal(s.pcr_position_overruns as nat)
        + " displacement="@ + decimal(s.pcr_position_displacement as nat) + " packets ("@ + decimal(
        s.pcr_position_displacement_ms as nat,
    )
        + " ms at rate) -- source PCR positions do not track its values; size the buffer past the displacement or use --require-pcr-position"@
}

/// Say what the run is going to do, before it starts doing it.
pub fn announce(invocation: &Invocation) -> (line: String)
    ensures
        line@ == announcement_text(*invocation),
{
    let mut line: String = "mpegts-pacer: -> ".to_owned();
    let target: String = say_target(invocation);
    put(&mut line, target.as_str());
    put(&mut line, " @ ");
    put(&mut line, invocation.rate.as_str());
    put(&mut line, " b/s, ");
    match invocation.config.pcr {
        PcrMode::Regenerate => put(&mut line, "regenerate PCR"),
        PcrMode::Preserve => put(&mut line, "preserve PCR"),
    }
    match invocation.config.clocking {
        Clocking::Stream => put(&mut line, ", stream-clocked"),
        Clocking::Arrival => {
            assert(line@ =~= line@ + Seq::empty());
        },
    }
    put(&mut line, ", ");
    let depth: String = say_depth(invocation.config.latency);
    put(&mut line, depth.as_str());
    line
}

fn say_target(invocation: &Invocation) -> (s: String)
    ensures
        s@ == target_text(invocation.destined(), invocation.dest@),
{
    match invocation.route() {
        Route::Stdout => "stdout (raw ts)".to_owned(),
        Route::Rtp => {
            let mut s: String = "rtp://".to_owned();
            put(&mut s, invocation.dest.as_str());
            s
        },
        Route::Udp => {
            let mut s: String = "udp://".to_owned();
            put(&mut s, invocation.dest.as_str());
            s
        },
    }
}

fn say_depth(latency: Latency) -> (s: String)
    ensures
        s@ == depth_text(latency),
{
    match latency {
        Latency::Fixed { target, max } => {
            let mut s: String = String::new();
            put_long_number(&mut s, target / NANOS_PER_MILLI);
            assert(s@ =~= decimal((target / NANOS_PER_MILLI) as nat));
            put(&mut s, " ms latency (cap ");
            put_long_number(&mut s, max / NANOS_PER_MILLI);
            put(&mut s, " ms)");
            s
        },
        Latency::Adaptive { floor, ceiling, .. } => {
            let mut s: String = "latency sized from arrival, ".to_owned();
            put_long_number(&mut s, floor / NANOS_PER_MILLI);
            put(&mut s, "-");
            put_long_number(&mut s, ceiling / NANOS_PER_MILLI);
            put(&mut s, " ms");
            s
        },
    }
}

/// Append the name of a state.
fn put_state(out: &mut String, source: SourceState)
    ensures
        final(out)@ == old(out)@ + state_text(source),
{
    match source {
        SourceState::Priming => put(out, "Priming"),
        SourceState::Live => put(out, "Live"),
        SourceState::Starved => put(out, "Starved"),
        SourceState::Stalled => put(out, "Stalled"),
    }
}

/// What to log of a change of state. Without it a dead source is invisible from the
/// outside: the egress holds its rate whether or not there is a programme in it, so
/// an operator watching bitrate or packet arrival sees a healthy leg either way.
pub fn transition(health: &Health) -> (line: String)
    ensures
        line@ == transition_text(*health),
{
    match health.source {
        SourceState::Stalled => {
            let mut line: String = "mpegts-pacer: SOURCE STALLED (stall #".to_owned();
            put_number(&mut line, health.stats.stalls);
            put(&mut line, ", ");
            put_number(&mut line, health.stats.content_gap_max_ms);
            put(&mut line, " ms without content)");
            line
        },
        // The cushion it settled on is worth saying out loud the moment it starts: on
        // a segmented input it is the difference between a groomer that works and one
        // that mutes every two seconds.
        SourceState::Live => {
            let mut line: String = "mpegts-pacer: source Live (arrival lead ".to_owned();
            put_number(&mut line, health.stats.arrival_lead_ms);
            put(&mut line, " ms, holding ");
            put_number(&mut line, health.stats.latency_target_ms);
            put(&mut line, " ms)");
            line
        },
        other => {
            let mut line: String = "mpegts-pacer: source ".to_owned();
            put_state(&mut line, other);
            line
        },
    }
}

/// The share of stuffing in the output, in thousandths.
fn stuffed(stats: &Stats) -> (r: u128)
    ensures
        r == stuffing_per_mille(*stats),
{
    let share: Ratio = stats.null_ratio();
    quotient_in_parts(share.numerator as u128, share.denominator, 1000)
}

/// The percentage of stuffing in the output, in tenths.
fn stuffed_percent(stats: &Stats) -> (r: u128)
    ensures
        r == stuffing_percent(*stats),
{
    let share: Ratio = stats.null_ratio();
    percent_in_tenths(share.numerator, share.denominator)
}

/// A burst in hundredths of a megabyte.
fn megabytes(packets: u64) -> (r: u128)
    ensures
        r == burst_megabytes(packets),
{
    quotient_in_parts((packets as u128) * 188, 1_000_000, 100)
}

/// One counter line, `key=value` so it can be parsed without a schema.
///
/// Cumulative counters and standing levels are both here on purpose: the first
/// say what has gone wrong, the second whether it is still going wrong.
pub fn sample(seconds: u64, health: &Health) -> (line: String)
    ensures
        line@ == sample_text(seconds, *health),
{
    let s: &Stats = &health.stats;
    let mut line: String = "mpegts-pacer: sample t=".to_owned();
    put_number(&mut line, seconds);
    put(&mut line, " state=");
    put_state(&mut line, health.source);
    put(&mut line, " out=");
    put_number(&mut line, s.output_packets);
    put(&mut line, " content=");
    put_number(&mut line, s.content_packets);
    put(&mut line, " null=");
    put_number(&mut line, s.null_packets);
    put(&mut line, " stuffing=");
    put_thousandths(&mut line, stuffed(s));
    put(&mut line, " dropped=");
    put_number(&mut line, s.dropped_packets);
    put(&mut line, " late_drops=");
    put_number(&mut line, s.late_drops);
    put(&mut line, " underruns=");
    put_number(&mut line, s.underruns);
    put(&mut line, " stalls=");
    put_number(&mut line, s.stalls);
    put(&mut line, " muted=");
    put_number(&mut line, s.muted_packets);
    put(&mut line, " resyncs=");
    put_number(&mut line, s.resyncs);
    put(&mut line, " pcr_inserted=");
    put_number(&mut line, s.pcr_inserted);
    put(&mut line, " buffer=");
    put_number(&mut line, s.buffer_packets);
    put(&mut line, " buffer_high_water=");
    put_number(&mut line, s.buffer_high_water);
    put(&mut line, " cushion_ms=");
    put_number(&mut line, s.latency_target_ms);
    put(&mut line, " lead_ms=");
    put_number(&mut line, s.arrival_lead_ms);
    put(&mut line, " media_rate_bps=");
    put_number(&mut line, s.media_rate_bps);
    put(&mut line, " content_gap_max_ms=");
    put_number(&mut line, s.content_gap_max_ms);
    put(&mut line, " pcr_displacement=");
    put_number(&mut line, s.pcr_position_displacement);
    line
}

/// What a run came to, line by line. The last line is there only where the source's
/// PCR positions overran its values: the symptom otherwise arrives as `resyncs` and
/// reads as a rate set too low, which no amount of extra rate fixes.
pub fn report(stats: &Stats) -> (lines: Vec<String>)
    ensures
        lines@.len() == (if stats.pcr_position_overruns > 0 {
            3int
        } else {
            2
        }),
        lines@[0]@ == totals_text(*stats),
        lines@[1]@ == arrival_text(*stats),
        stats.pcr_position_overruns > 0 ==> lines@[2]@ == position_text(*stats),
{
    let mut lines: Vec<String> = Vec::new();
    lines.push(say_totals(stats));
    lines.push(say_arrival(stats));
    if stats.pcr_position_overruns > 0 {
        lines.push(say_position(stats));
    }
    lines
}

fn say_totals(s: &Stats) -> (line: String)
    ensures
        line@ == totals_text(*s),
{
    let mut line: String = "mpegts-pacer: done. output_packets=".to_owned();
    put_number(&mut line, s.output_packets);
    put(&mut line, " content=");
    put_number(&mut line, s.content_packets);
    put(&mut line, " null=");
    put_number(&mut line, s.null_packets);
    put(&mut line, " (");
    put_tenths(&mut line, stuffed_percent(s));
    put(&mut line, "% stuffing) pcr_inserted=");
    put_number(&mut line, s.pcr_inserted);
    put(&mut line, " stripped_nulls=");
    put_number(&mut line, s.input_nulls_stripped);
    put(&mut line, " dropped=");
    put_number(&mut line, s.dropped_packets);
    put(&mut line, " late_drops=");
    put_number(&mut line, s.late_drops);
    put(&mut line, " resyncs=");
    put_number(&mut line, s.resyncs);
    put(&mut line, " start_backlog=");
    put_number(&mut line, s.start_backlog);
    put(&mut line, " underruns=");
    put_number(&mut line, s.underruns);
    put(&mut line, " stalls=");
    put_number(&mut line, s.stalls);
    put(&mut line, " muted=");
    put_number(&mut line, s.muted_packets);
    put(&mut line, " max_content_gap=");
    put_number(&mut line, s.content_gap_max_ms);
    put(&mut line, " ms");
    line
}

fn say_arrival(s: &Stats) -> (line: String)
    ensures
        line@ == arrival_text(*s),
{
    let mut line: String = "mpegts-pacer: arrival. bursts=".to_owned();
    put_number(&mut line, s.bursts);
    put(&mut line, " max_burst=");
    put_number(&mut line, s.burst_max_packets);
    put(&mut line, " packets (");
    put_hundredths(&mut line, megabytes(s.burst_max_packets));
    put(&mut line, " MB) lead=");
    put_number(&mut line, s.arrival_lead_ms);
    put(&mut line, " ms cushion=");
    put_number(&mut line, s.latency_target_ms);
    put(&mut line, " ms buffer_high_water=");
    put_number(&mut line, s.buffer_high_water);
    put(&mut line, " packets media_rate=");
    put_number(&mut line, s.media_rate_bps);
    put(&mut line, " b/s");
    line
}

fn say_position(s: &Stats) -> (line: String)
    ensures
        line@ == position_text(*s),
{
    let mut line: String = "mpegts-pacer: pcr position. overrun_intervals=".to_owned();
    put_number(&mut line, s.pcr_position_overruns);
    put(&mut line, " displacement=");
    put_number(&mut line, s.pcr_position_displacement);
    put(&mut line, " packets (");
    put_number(&mut line, s.pcr_position_displacement_ms);
    put(
        &mut line,
        " ms at rate) -- source PCR positions do not track its values; size the buffer past the displacement or use --require-pcr-position",
    );
    line
}

/// The share of stuffing is said to the nearest thousandth, its percentage to the nearest
/// tenth, and a burst to the nearest hundredth of a megabyte, 188 bytes to a packet.
pub proof fn law_shares_and_sizes_are_to_the_nearest(stats: Stats, packets: u64)
    requires
        1 <= stats.output_packets < 0x20_0000_0000_0000,
        stats.null_packets <= stats.output_packets,
        stats.null_packets < 0x100_0000_0000,
        packets < 0x10_0000_0000,
    ensures
        ({
            let share = stuffing_per_mille(stats) as int;
            let size = burst_megabytes(packets) as int;
            let percent = stuffing_percent(stats) as int;
            let out = stats.output_packets as int;
            &&& 2 * percent * out <= 2000 * stats.null_packets + out
            &&& 2000 * stats.null_packets <= 2 * percent * out + out
            &&& 2 * share * out <= 2000 * stats.null_packets + out
            &&& 2000 * stats.null_packets <= 2 * share * out + out
            &&& 2 * size * 1_000_000 <= 200 * packets * 188 + 1_000_000
            &&& 200 * packets * 188 <= 2 * size * 1_000_000 + 1_000_000
        }),
{
    law_parts_are_to_the_nearest(stats.null_packets as int, stats.output_packets as int, 1000);
    law_parts_are_to_the_nearest(packets * 188, 1_000_000, 100);
    law_percentages_are_to_the_nearest(stats.null_packets as int, stats.output_packets as int);
}

} // verus!
