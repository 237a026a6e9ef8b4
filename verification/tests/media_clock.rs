use mpegts_pacer::media_clock::{release_rate, MediaClock, RateSample, CREDIT_PER_PACKET};

const PPS: u64 = 1_000_000_000;

#[test]
fn a_sample_spans_at_least_a_millisecond() {
    let mut clock = MediaClock::new(7_000 * PPS);
    assert_eq!(clock.observe(Some(0)), None, "one PCR is no interval");
    // Half a millisecond, held; another half, and both are a sample.
    assert_eq!(clock.observe(None), None);
    assert_eq!(clock.observe(Some(13_500)), None);
    assert_eq!(clock.pending_packets, 2);
    assert_eq!(clock.sub_ms_intervals, 1);
    assert_eq!(
        clock.observe(Some(27_000)),
        Some(RateSample { packets: 3, nanos: 1_000_000 })
    );
    assert_eq!(clock.pending_packets, 0);
    assert_eq!(clock.intervals, 2);
    assert_eq!(clock.pcrs_seen, 3);
    assert_eq!(clock.max_packets_in_interval, 2);
}

#[test]
fn repeats_and_jumps_are_not_intervals() {
    let mut clock = MediaClock::new(7_000 * PPS);
    clock.observe(Some(100));
    assert_eq!(clock.observe(Some(100)), None, "a repeat");
    assert_eq!(clock.frozen_packets, 1);
    assert_eq!(clock.observe(Some(100 + 6 * 27_000_000)), None, "a jump");
    assert_eq!(clock.intervals, 0);
    assert_eq!(clock.frozen_packets, 0);
}

#[test]
fn the_estimate_is_the_ratio_of_the_sums() {
    let mut clock = MediaClock::new(7_000 * PPS);
    assert_eq!(clock.rate(), 7_000 * PPS, "the fallback, until there is an estimate");
    assert_eq!(clock.estimated_rate(), None);
    clock.fold(RateSample { packets: 500, nanos: 25_000_000 }, 0);
    assert_eq!(clock.estimated_rate(), Some(20_000 * PPS));
    // Half the weight of 500 packets over 25 ms, and 4 over 25 ms more.
    clock.fold(RateSample { packets: 4, nanos: 25_000_000 }, 1 << 63);
    assert_eq!(clock.decayed_packets, 254 * PPS);
    assert_eq!(clock.decayed_nanos, 37_500_000);
    assert_eq!(clock.rate(), 6_773_333_333_334);
}

#[test]
fn a_clock_that_stops_moving_is_not_believed() {
    let mut clock = MediaClock::new(10 * PPS);
    clock.observe(Some(0));
    clock.fold(RateSample { packets: 3, nanos: 1_000_000 }, 0);
    assert_eq!(clock.rate(), 3_000 * PPS);
    // One tick per packet: twenty packets are what the fallback carries in two
    // seconds, and one more is too many to wait for.
    for tick in 1..=20 {
        assert_eq!(clock.observe(Some(tick)), None);
        assert!(!clock.clock_stalled());
    }
    clock.observe(Some(21));
    assert!(clock.clock_stalled());
    assert_eq!(clock.estimated_rate(), None);
    assert_eq!(clock.rate(), 10 * PPS, "released at the fallback meanwhile");
    // A clock that does not move at all is no better.
    let mut frozen = MediaClock::new(10 * PPS);
    frozen.observe(Some(5));
    for _ in 0..21 {
        frozen.observe(Some(5));
    }
    assert!(frozen.clock_stalled());
}

#[test]
fn release_is_trimmed_by_at_most_a_twentieth() {
    let rate = 1_000 * PPS;
    let cushion = 1_000_000_000; // a thousand packets
    assert_eq!(release_rate(rate, 1_000, cushion), rate);
    assert_eq!(release_rate(rate, 500, cushion), 975 * PPS);
    assert_eq!(release_rate(rate, 0, cushion), 950 * PPS);
    assert_eq!(release_rate(rate, 1_500, cushion), 1_025 * PPS);
    assert_eq!(release_rate(rate, 90_000, cushion), 1_050 * PPS);
    assert_eq!(release_rate(rate, 90_000, 0), rate, "no cushion, no servo");
}

#[test]
fn credit_accrues_with_time() {
    let mut clock = MediaClock::new(1_000 * PPS);
    assert_eq!(clock.due(5, 0, 0), 0, "not started");
    clock.anchor = Some(1_000_000);
    assert_eq!(clock.due(999_999, 0, 0), 0, "not yet");
    assert_eq!(clock.due(1_000_000, 0, 0), 1, "the first packet is due at the anchor");
    assert_eq!(clock.due(1_999_999, 0, 0), 1);
    assert_eq!(clock.due(2_000_000, 0, 0), 2);
    assert_eq!(clock.due(1_500_000, 0, 0), 2, "time does not take credit back");
    assert_eq!(clock.credit, CREDIT_PER_PACKET);
    clock.restart(9_000_000);
    assert_eq!(clock.due(8_999_999, 0, 0), 0);
    assert_eq!(clock.due(9_000_000, 0, 0), 1);
}
