use mpegts_pacer::arith::Ratio;
use mpegts_pacer::cli::{parse, request, Invocation, Monitor, Request, Route, UsageError};
use mpegts_pacer::report::{announce, report, sample, transition};
use mpegts_pacer::text::{parse_whole_number, put_hundredths, put_number, put_tenths, put_thousandths};
use mpegts_pacer::{
    Bitrate, Clocking, Health, Latency, PcrMode, PcrPositionPolicy, SourceState, Stall,
    StallPolicy, Stats,
};

const MS: u128 = 1_000_000;

fn args(line: &str) -> Vec<String> {
    line.split_whitespace().map(|s| s.to_string()).collect()
}

fn ok(line: &str) -> Invocation {
    parse(&args(line)).expect("a good command line")
}

fn err(line: &str) -> UsageError {
    parse(&args(line)).expect_err("a bad command line")
}

#[test]
fn a_bare_command_line_is_the_default() {
    let i = ok("- auto");
    assert_eq!(i.dest, "-");
    assert_eq!(i.rate, "auto");
    assert_eq!(i.config.bitrate, Bitrate::Auto { headroom: Ratio::new(15, 100) });
    assert_eq!(i.config.latency, Latency::default());
    assert_eq!(i.config.stall, Stall::Adaptive { grace: 1_000 * MS });
    assert_eq!(i.config.stall_policy, StallPolicy::Mute);
    assert_eq!(i.config.pcr, PcrMode::Regenerate);
    assert_eq!(i.config.clocking, Clocking::Arrival);
    assert!(!i.rtp);
    assert_eq!(i.ssrc, None);
    assert_eq!(i.stats_interval, None);
    assert_eq!(i.route(), Route::Stdout);
}

#[test]
fn every_option_is_taken_in() {
    let i = ok(
        "239.0.0.1:5000 10000000 --rtp --ssrc 538968071 --preserve --latency-ms 50 \
         --max-latency-ms 500 --stall-ms 700 --on-stall fail --stream-clock \
         --sequence-seed 65535 --require-pcr-position --stats-interval-ms 60000",
    );
    assert_eq!(i.config.bitrate, Bitrate::Constant(10_000_000));
    assert!(i.rtp);
    assert_eq!(i.ssrc, Some(538_968_071));
    assert_eq!(i.config.pcr, PcrMode::Preserve);
    assert_eq!(i.config.latency, Latency::Fixed { target: 50 * MS, max: 500 * MS });
    assert_eq!(i.config.stall, Stall::After(700 * MS));
    assert_eq!(i.config.stall_policy, StallPolicy::Fail);
    assert_eq!(i.config.clocking, Clocking::Stream);
    assert_eq!(i.config.sequence_seed, 65_535);
    assert_eq!(i.config.pcr_position_policy, PcrPositionPolicy::Fail);
    assert_eq!(i.stats_interval, Some(60_000 * MS));
    assert_eq!(i.route(), Route::Rtp);
}

#[test]
fn durations_are_taken_as_long_as_they_are_given() {
    let long: u64 = u64::MAX;
    let i = ok(&format!("- 1 --latency-ms {long} --max-latency-ms {long} --stall-ms {long}"));
    let span = u128::from(long) * MS;
    assert_eq!(i.config.latency, Latency::Fixed { target: span, max: span });
    assert_eq!(i.config.stall, Stall::After(span));
    assert!(announce(&i).contains("18446744073709551615 ms latency (cap 18446744073709551615 ms)"));
}

#[test]
fn depths_refine_one_another_in_order() {
    assert_eq!(
        ok("- 1 --segment-ms 2000").config.latency,
        Latency::Fixed { target: 5_000 * MS, max: 10_000 * MS }
    );
    assert_eq!(
        ok("- 1 --latency-ms 100 --segment-ms 2000").config.latency,
        Latency::Fixed { target: 100 * MS, max: 10_000 * MS }
    );
    assert_eq!(
        ok("- 1 --segment-ms 2000 --max-latency-ms 6000").config.latency,
        Latency::Fixed { target: 5_000 * MS, max: 6_000 * MS }
    );
    assert_eq!(
        ok("- 1 --latency-ceiling-ms 20000").config.latency,
        Latency::Adaptive { floor: 200 * MS, ceiling: 20_000 * MS, factor: Ratio::new(250, 100) }
    );
    // A ceiling below the floor parses; it is the run that cannot be sized.
    assert_eq!(
        ok("- 1 --latency-ceiling-ms 100").config.latency,
        Latency::Adaptive { floor: 200 * MS, ceiling: 100 * MS, factor: Ratio::new(250, 100) }
    );
    assert_eq!(
        ok("- 1 --max-latency-ms 500").config.latency,
        Latency::Fixed { target: 200 * MS, max: 500 * MS }
    );
}

#[test]
fn zero_switches_detection_and_sampling_off() {
    assert_eq!(ok("- 1 --stall-ms 0").config.stall, Stall::Off);
    assert_eq!(ok("- 1 --stats-interval-ms 0").stats_interval, None);
    assert_eq!(
        ok("- 1 --stall-ms 5 --stall-grace-ms 9").config.stall,
        Stall::Adaptive { grace: 9 * MS },
        "a grace turns a pinned timeout back into a derived one"
    );
}

#[test]
fn each_mistake_has_its_own_complaint() {
    assert!(matches!(err(""), UsageError::MissingDestination));
    assert!(matches!(err("-"), UsageError::MissingBitrate));
    assert!(matches!(err("- fast"), UsageError::BadBitrate));
    assert!(matches!(err("- -1"), UsageError::BadBitrate));
    assert!(matches!(err("- 1 --what"), UsageError::UnknownArgument(a) if a == "--what"));
    assert!(matches!(err("- 1 --on-stall explode"), UsageError::UnknownPolicy(p) if p == "explode"));
    assert!(matches!(err("- 1 --on-stall"), UsageError::NeedsValue(f) if f == "--on-stall"));
    assert!(matches!(err("- 1 --latency-ms"), UsageError::NeedsValue(f) if f == "--latency-ms"));
    assert!(matches!(
        err("- 1 --latency-ms soon"),
        UsageError::NeedsNumber(f, got) if f == "--latency-ms" && got == "soon"
    ));
    assert!(matches!(err("- 1 --ssrc 4294967296"), UsageError::NeedsNumber(..)));
    assert!(matches!(err("- 1 --sequence-seed 65536"), UsageError::NeedsNumber(..)));
    assert!(matches!(err("- 1 --latency-ceiling-ms 100 --max-latency-ms 900"), UsageError::CeilingBelowFloor));
    // Options are read before the rate.
    assert!(matches!(err("- fast --what"), UsageError::UnknownArgument(_)));
}

#[test]
fn help_comes_before_version_comes_before_a_run() {
    assert_eq!(request(&args("- 1 -V --help")), Request::Help);
    assert_eq!(request(&args("- 1 -h")), Request::Help);
    assert_eq!(request(&args("--version")), Request::Version);
    assert_eq!(request(&args("-V")), Request::Version);
    assert_eq!(request(&args("- 1 --rtp")), Request::Run);
    assert_eq!(request(&[].to_vec()), Request::Run);
}

#[test]
fn whole_numbers_are_read_strictly() {
    assert_eq!(parse_whole_number("0", 9), Some(0));
    assert_eq!(parse_whole_number("+12", 99), Some(12));
    assert_eq!(parse_whole_number("007", 9), Some(7));
    assert_eq!(parse_whole_number("18446744073709551615", u64::MAX), Some(u64::MAX));
    assert_eq!(parse_whole_number("18446744073709551616", u64::MAX), None);
    assert_eq!(parse_whole_number("10", 9), None);
    for bad in ["", "+", "-1", "1 ", "1.5", "0x10", "++1", "1e3"] {
        assert_eq!(parse_whole_number(bad, u64::MAX), None, "{bad:?}");
    }
}

fn written<N>(put: fn(&mut String, N), n: N) -> String {
    let mut out = String::from("=");
    put(&mut out, n);
    out
}

#[test]
fn numbers_are_written_in_decimal() {
    for n in [0, 7, 10, 99, 100, 1_234_567_890, u64::MAX] {
        assert_eq!(written(put_number, n), format!("={n}"));
        assert_eq!(parse_whole_number(&format!("{n}"), u64::MAX), Some(n));
    }
    assert_eq!(written(put_tenths, 507), "=50.7");
    assert_eq!(written(put_tenths, 3), "=0.3");
    assert_eq!(written(put_hundredths, 2_405), "=24.05");
    assert_eq!(written(put_thousandths, 1_001), "=1.001");
    assert_eq!(written(put_thousandths, 42), "=0.042");
}

#[test]
fn the_announcement_says_what_is_coming() {
    assert_eq!(
        announce(&ok("- auto")),
        "mpegts-pacer: -> stdout (raw ts) @ auto b/s, regenerate PCR, \
         latency sized from arrival, 200-8000 ms"
    );
    assert_eq!(
        announce(&ok("1.2.3.4:5 9000000 --rtp --latency-ms 50 --stream-clock")),
        "mpegts-pacer: -> rtp://1.2.3.4:5 @ 9000000 b/s, regenerate PCR, stream-clocked, \
         50 ms latency (cap 2000 ms)"
    );
    assert_eq!(
        announce(&ok("1.2.3.4:5 9000000 --preserve --latency-ms 1")),
        "mpegts-pacer: -> udp://1.2.3.4:5 @ 9000000 b/s, preserve PCR, 1 ms latency (cap 2000 ms)"
    );
}

fn some_stats() -> Stats {
    Stats {
        output_packets: 2_000,
        content_packets: 1_500,
        null_packets: 495,
        pcr_inserted: 5,
        burst_max_packets: 12_900,
        arrival_lead_ms: 1_700,
        latency_target_ms: 4_250,
        stalls: 2,
        content_gap_max_ms: 321,
        media_rate_bps: 8_500_000,
        ..Stats::default()
    }
}

#[test]
fn the_closing_report_counts_everything() {
    let lines = report(&some_stats());
    assert_eq!(lines.len(), 2);
    assert_eq!(
        lines[0],
        "mpegts-pacer: done. output_packets=2000 content=1500 null=495 (24.8% stuffing) \
         pcr_inserted=5 stripped_nulls=0 dropped=0 late_drops=0 resyncs=0 start_backlog=0 \
         underruns=0 stalls=2 muted=0 max_content_gap=321 ms"
    );
    assert_eq!(
        lines[1],
        "mpegts-pacer: arrival. bursts=0 max_burst=12900 packets (2.43 MB) lead=1700 ms \
         cushion=4250 ms buffer_high_water=0 packets media_rate=8500000 b/s"
    );
    let strayed = Stats {
        pcr_position_overruns: 3,
        pcr_position_displacement: 280,
        pcr_position_displacement_ms: 35,
        ..some_stats()
    };
    let lines = report(&strayed);
    assert_eq!(lines.len(), 3);
    assert!(lines[2].starts_with(
        "mpegts-pacer: pcr position. overrun_intervals=3 displacement=280 packets (35 ms at rate)"
    ));
}

#[test]
fn transitions_and_samples_are_said_as_they_are() {
    let health = |source| Health { source, stats: some_stats() };
    assert_eq!(
        transition(&health(SourceState::Stalled)),
        "mpegts-pacer: SOURCE STALLED (stall #2, 321 ms without content)"
    );
    assert_eq!(
        transition(&health(SourceState::Live)),
        "mpegts-pacer: source Live (arrival lead 1700 ms, holding 4250 ms)"
    );
    assert_eq!(transition(&health(SourceState::Starved)), "mpegts-pacer: source Starved");
    assert_eq!(transition(&health(SourceState::Priming)), "mpegts-pacer: source Priming");
    assert_eq!(
        sample(61, &health(SourceState::Live)),
        "mpegts-pacer: sample t=61 state=Live out=2000 content=1500 null=495 stuffing=0.247 \
         dropped=0 late_drops=0 underruns=0 stalls=2 muted=0 resyncs=0 pcr_inserted=5 \
         buffer=0 buffer_high_water=0 cushion_ms=4250 lead_ms=1700 media_rate_bps=8500000 \
         content_gap_max_ms=321 pcr_displacement=0"
    );
}

#[test]
fn the_monitor_logs_changes_and_skips_missed_periods() {
    let mut monitor = Monitor::new(Some(10), 100);
    let first = monitor.note(SourceState::Priming, 105);
    assert!(first.changed && !first.sample);
    let second = monitor.note(SourceState::Priming, 137);
    assert!(!second.changed && second.sample);
    let third = monitor.note(SourceState::Live, 140);
    assert!(third.changed && !third.sample, "the next line is due at 147");
    assert!(monitor.note(SourceState::Live, 147).sample);
    let mut quiet = Monitor::new(None, 0);
    assert!(!quiet.note(SourceState::Live, u128::MAX).sample);
}

#[test]
fn stuffing_is_a_share_of_the_output() {
    assert_eq!(Stats::default().null_ratio().numerator, 0);
    let ratio = some_stats().null_ratio();
    assert_eq!((ratio.numerator, ratio.denominator), (495, 2_000));
}

#[test]
fn every_usage_error_is_worded() {
    let said = |line: &str| {
        let wording = err(line).wording();
        (wording.text, wording.quoted)
    };
    assert_eq!(said(""), ("missing destination".to_string(), None));
    assert_eq!(said("-"), ("missing bitrate".to_string(), None));
    assert_eq!(said("- 1 --ssrc"), ("--ssrc needs a value".to_string(), None));
    assert_eq!(
        said("- 1 --ssrc x"),
        ("--ssrc needs a whole number, got ".to_string(), Some("x".to_string()))
    );
    assert_eq!(
        said("- 1 --on-stall stop"),
        ("unknown stall policy ".to_string(), Some("stop".to_string()))
    );
    assert_eq!(said("- 1 --what"), ("unknown argument ".to_string(), Some("--what".to_string())));
    assert_eq!(
        said("- fast"),
        ("bitrate must be a whole number of bits per second, or \"auto\"".to_string(), None)
    );
    assert_eq!(
        said("- 1 --latency-ceiling-ms 100 --max-latency-ms 900"),
        ("--latency-ceiling-ms must not be below the 200 ms floor".to_string(), None)
    );
}

#[test]
fn figures_are_printed_as_double_precision_has_them() {
    let mut checked = 0;
    for output in [1_u64, 7, 400, 2_000, 2_001, 16_000, 999_983, 1 << 53, (1 << 53) + 1, u64::MAX] {
        for step in 0..400 {
            let null = (output / 400).max(1) * step % output.max(2) + step % 3;
            let stats = Stats {
                output_packets: output,
                null_packets: null,
                burst_max_packets: step * 133 + output % 97,
                ..Stats::default()
            };
            let ratio = null as f64 / output as f64;
            let lines = report(&stats);
            assert!(
                lines[0].contains(&format!(" ({:.1}% stuffing) ", ratio * 100.0)),
                "{null} in {output}: {}",
                lines[0]
            );
            let megabytes = (stats.burst_max_packets * 188) as f64 / 1_000_000.0;
            assert!(lines[1].contains(&format!(" packets ({megabytes:.2} MB) ")), "{}", lines[1]);
            let health = Health { source: SourceState::Live, stats };
            assert!(sample(1, &health).contains(&format!(" stuffing={ratio:.3} ")));
            checked += 1;
        }
    }
    assert_eq!(checked, 4_000);
    // Three in two thousand fall a little short of the tie.
    let stats = Stats { output_packets: 2_000, null_packets: 3, ..Stats::default() };
    assert!(report(&stats)[0].contains(" (0.1% stuffing) "));
}

#[test]
fn the_order_of_options_does_not_matter() {
    let options = [
        "--rtp",
        "--ssrc 7",
        "--latency-ms 60",
        "--max-latency-ms 900",
        "--stall-ms 700",
        "--on-stall fail",
        "--stream-clock",
        "--sequence-seed 12",
        "--require-pcr-position",
        "--stats-interval-ms 2000",
    ];
    let expected = ok(&format!("- 5000000 {}", options.join(" ")));
    assert_eq!(expected.ssrc, Some(7));
    assert_eq!(expected.config.sequence_seed, 12);
    for turn in 1..options.len() {
        let mut turned = options;
        turned.rotate_left(turn);
        let got = ok(&format!("- 5000000 {}", turned.join(" ")));
        assert_eq!(format!("{got:?}"), format!("{expected:?}"));
        turned.reverse();
        let got = ok(&format!("- 5000000 {}", turned.join(" ")));
        assert_eq!(format!("{got:?}"), format!("{expected:?}"));
    }
}
