use mpegts_pacer::arith::{Ratio, LONGEST};
use mpegts_pacer::config::DEFAULT_PCR_MAX_INTERVAL;
use mpegts_pacer::{
    Bitrate, Clocking, Config, Error, Latency, PcrMode, PcrPositionPolicy, Stall, StallPolicy,
    DEFAULT_LATENCY, DEFAULT_LATENCY_CEILING, DEFAULT_LATENCY_FACTOR, DEFAULT_MAX_LATENCY,
};

const MS: u128 = 1_000_000;

#[test]
fn defaults_are_as_documented() {
    let config = Config::new(10_000_000);
    assert_eq!(config.bitrate, Bitrate::Constant(10_000_000));
    assert_eq!(
        config.latency,
        Latency::Adaptive {
            floor: 200 * MS,
            ceiling: 8_000 * MS,
            factor: Ratio::new(250, 100),
        }
    );
    assert_eq!(config.pcr, PcrMode::Regenerate);
    assert_eq!(config.packets_per_datagram, 7);
    assert_eq!(config.pcr_max_interval, 40 * MS);
    assert_eq!(config.pcr_max_interval, DEFAULT_PCR_MAX_INTERVAL);
    assert_eq!(config.stall, Stall::Adaptive { grace: 1_000 * MS });
    assert_eq!(config.stall_policy, StallPolicy::Mute);
    assert_eq!(config.clocking, Clocking::Arrival);
    assert_eq!(config.sequence_seed, 0);
    assert_eq!(config.pcr_position_policy, PcrPositionPolicy::Report);
    assert_eq!(config.resolved_bitrate(), Some(10_000_000));
    assert_eq!(Config::auto().resolved_bitrate(), None);
    assert_eq!(Config::auto().bitrate, Bitrate::Auto { headroom: Ratio::new(15, 100) });
}

#[test]
fn an_adaptive_cushion_is_clamped() {
    let latency = Latency::default();
    assert_eq!(latency.target(0), DEFAULT_LATENCY);
    assert_eq!(latency.target(80 * MS), 200 * MS, "exactly the floor");
    assert_eq!(latency.target(1_000 * MS), 2_500 * MS);
    assert_eq!(latency.target(60_000 * MS), DEFAULT_LATENCY_CEILING);
    assert_eq!(latency.cap(200 * MS), DEFAULT_MAX_LATENCY);
    assert_eq!(latency.cap(2_500 * MS), 5_000 * MS);
    assert_eq!(latency.start_deadline(), Some(DEFAULT_LATENCY_CEILING));
}

#[test]
fn a_pinned_cushion_ignores_the_lead() {
    let latency = Latency::Fixed { target: 50 * MS, max: 70 * MS };
    assert_eq!(latency.target(9_000 * MS), 50 * MS);
    assert_eq!(latency.cap(9_000 * MS), 70 * MS);
    assert_eq!(latency.start_deadline(), None);
}

#[test]
fn the_stall_timeout_lies_past_the_cushion() {
    assert_eq!(Stall::Off.timeout(5), None);
    assert_eq!(Stall::After(7).timeout(5), Some(7));
    assert_eq!(Stall::default().timeout(4_000 * MS), Some(5_000 * MS));
    assert_eq!(Stall::Adaptive { grace: 1 }.timeout(LONGEST), Some(LONGEST));
}

#[test]
fn setters_set_what_they_say() {
    let config = Config::new(1)
        .with_bitrate(Bitrate::Constant(2))
        .with_pcr_mode(PcrMode::Preserve)
        .with_packets_per_datagram(0)
        .with_pcr_max_interval(3)
        .with_stall_grace(4)
        .with_stall_policy(StallPolicy::Fail)
        .with_clocking(Clocking::Stream)
        .with_sequence_seed(5)
        .with_pcr_position_policy(PcrPositionPolicy::Fail);
    assert_eq!(config.bitrate, Bitrate::Constant(2));
    assert_eq!(config.pcr, PcrMode::Preserve);
    assert_eq!(config.packets_per_datagram, 1, "a datagram holds at least one packet");
    assert_eq!(config.pcr_max_interval, 3);
    assert_eq!(config.stall, Stall::Adaptive { grace: 4 });
    assert_eq!(config.stall_policy, StallPolicy::Fail);
    assert_eq!(config.clocking, Clocking::Stream);
    assert_eq!(config.sequence_seed, 5);
    assert_eq!(config.pcr_position_policy, PcrPositionPolicy::Fail);
    assert_eq!(config.with_stall_timeout(Some(6)).stall, Stall::After(6));
    assert_eq!(config.with_stall_timeout(None).stall, Stall::Off);
}

#[test]
fn pinning_one_depth_leaves_the_other_alone() {
    let config = Config::new(1).with_latency(50 * MS);
    assert_eq!(config.latency, Latency::Fixed { target: 50 * MS, max: 2_000 * MS });
    let config = Config::new(1).with_max_latency(500 * MS);
    assert_eq!(config.latency, Latency::Fixed { target: 200 * MS, max: 500 * MS });
    let config = config.with_adaptive_latency(1, 2, Ratio::percent(DEFAULT_LATENCY_FACTOR));
    assert_eq!(config.latency, Latency::Adaptive { floor: 1, ceiling: 2, factor: Ratio::new(250, 100) });
}

#[test]
fn a_segment_duration_pins_both_depths() {
    let config = Config::new(1).with_segment_duration(2_000 * MS);
    assert_eq!(config.latency, Latency::Fixed { target: 5_000 * MS, max: 10_000 * MS });
}

fn refusal(config: Config) -> &'static str {
    match config.validate() {
        Err(Error::Config(message)) => message,
        other => panic!("expected a refusal, got {other:?}"),
    }
}

#[test]
fn each_refusal_says_why() {
    let deep = Config::new(1).with_max_latency(1).with_latency(2);
    assert!(refusal(deep).starts_with("latency exceeds max_latency"));
    let stream = Config::new(1).with_latency(1).with_clocking(Clocking::Stream);
    assert!(stream.validate().is_ok());
    let auto = Config::auto().with_latency(1).with_clocking(Clocking::Stream);
    assert!(refusal(auto).starts_with("stream clocking needs an explicit constant bitrate"));
    let preserved = stream.with_pcr_mode(PcrMode::Preserve);
    assert!(refusal(preserved).starts_with("stream clocking needs PcrMode::Regenerate"));
    let adaptive = Config::new(1).with_clocking(Clocking::Stream);
    assert!(refusal(adaptive).starts_with("stream clocking needs an explicit latency"));
}

#[test]
fn a_ratio_rounds_to_the_nearest() {
    assert_eq!(Ratio::new(3, 4).scale(40 * MS), 30 * MS);
    assert_eq!(Ratio::new(1, 3).scale(1), 0);
    assert_eq!(Ratio::new(1, 2).scale(1), 1);
    assert_eq!(Ratio::new(u64::MAX, 1).scale(2), 2 * u128::from(u64::MAX));
    assert_eq!(Ratio::new(u64::MAX, 1).scale(LONGEST), LONGEST);
}
