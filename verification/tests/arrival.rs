use std::ops::Add;
use std::time::Duration;

use mpegts_pacer::arrival::{self, ArrivalProfile, WINDOW};
use mpegts_pacer::DELIVERY_GAP;

/// A duration as the library counts it.
fn ns(d: Duration) -> u128 {
    d.as_nanos()
}

/// What the library counts, as a duration.
fn lasting(nanos: u128) -> Duration {
    Duration::from_nanos(nanos as u64)
}

/// A rate in packets per second as the library counts it.
fn rate(pps: f64) -> u64 {
    (pps * 1e9) as u64
}

/// How long `packets` last at a rate in packets per second.
fn media_duration(packets: u64, pps: f64) -> Duration {
    lasting(arrival::media_duration(packets, rate(pps)))
}

/// A point on a synthetic clock.
#[derive(Clone, Copy, Debug)]
struct Instant(u128);

impl Instant {
    fn now() -> Self {
        Instant(1_000_000_000_000)
    }
}

impl Add<Duration> for Instant {
    type Output = Instant;

    fn add(self, d: Duration) -> Instant {
        Instant(self.0 + ns(d))
    }
}

/// A profile on that clock.
struct Profile(ArrivalProfile);

impl Profile {
    fn new() -> Self {
        Profile(ArrivalProfile::new())
    }

    fn observe(&mut self, now: Instant, pps: f64) {
        self.0.observe(now.0, rate(pps));
    }

    fn lead(&self) -> Duration {
        lasting(self.0.lead())
    }

    fn bursty(&self) -> bool {
        self.0.bursty()
    }

    fn between_deliveries(&self, now: Instant) -> bool {
        self.0.between_deliveries(now.0)
    }

    fn bursts(&self) -> u64 {
        self.0.bursts()
    }

    fn burst_max_packets(&self) -> u64 {
        self.0.burst_max_packets()
    }
}

/// A 10 Mb/s stream: 10_000_000 / (188 * 8) = 6648.9 packets per second.
const RATE_PPS: f64 = 10_000_000.0 / (188.0 * 8.0);

/// Deliver `packets` as fast as the loop can, i.e. at line rate.
fn burst(profile: &mut Profile, at: Instant, packets: u64, over: Duration) {
    for i in 0..packets {
        let offset = over.mul_f64(i as f64 / packets as f64);
        profile.observe(at + offset, RATE_PPS);
    }
}

/// Deliver `packets` spread evenly at exactly the media rate.
fn continuous(profile: &mut Profile, at: Instant, packets: u64) -> Instant {
    for i in 0..packets {
        profile.observe(at + media_duration(i, RATE_PPS), RATE_PPS);
    }
    at + media_duration(packets, RATE_PPS)
}

#[test]
fn a_continuous_feed_never_gets_ahead() {
    // The MoQ case, and the property that makes the lead safe to size from:
    // a rate-matched feed's lead stays near zero however long it runs, so
    // adaptive sizing leaves it on the configured floor.
    let mut profile = Profile::new();
    let t0 = Instant::now();
    continuous(&mut profile, t0, 60 * RATE_PPS as u64);
    assert!(
        profile.lead() < Duration::from_millis(50),
        "a minute of rate-matched delivery led by {:?}",
        profile.lead()
    );
    assert!(!profile.bursty(), "continuous delivery is not bursty");
}

#[test]
fn a_segment_fetched_at_line_rate_leads_by_its_own_duration() {
    // The segmented-HTTP case: a 2 s segment arrives in 300 ms, so the input
    // is ~2 s of programme ahead and the cushion has to cover it.
    let mut profile = Profile::new();
    let t0 = Instant::now();
    let segment = (2.0 * RATE_PPS) as u64;
    burst(&mut profile, t0, segment, Duration::from_millis(300));

    let lead = profile.lead();
    assert!(
        (Duration::from_millis(1_600)..Duration::from_millis(2_000)).contains(&lead),
        "expected a lead near the segment duration less the fetch time, got {lead:?}"
    );
    assert!(profile.bursty(), "a line-rate segment fetch is bursty");
}

#[test]
fn a_hiccup_on_a_continuous_feed_is_not_a_burst() {
    // The failure mode that rules out cutting the stream at a silence
    // threshold: one 300 ms stall would close a "burst" holding every packet
    // since the run began, and infer a cadence of minutes from it.
    let mut profile = Profile::new();
    let t0 = Instant::now();
    let resume = continuous(&mut profile, t0, 30 * RATE_PPS as u64) + Duration::from_millis(300);
    continuous(&mut profile, resume, RATE_PPS as u64);
    assert!(
        profile.lead() < Duration::from_millis(50),
        "a hiccup inflated the lead to {:?}",
        profile.lead()
    );
}

#[test]
fn a_one_off_outage_ages_out_of_the_window() {
    // A recovered outage delivers a backlog in one go, which is a real lead
    // and should be remembered - but not for the rest of the run, or one
    // hiccup would hold seconds of latency for ever.
    let mut profile = Profile::new();
    let t0 = Instant::now();
    let backlog = (4.0 * RATE_PPS) as u64;
    burst(&mut profile, t0, backlog, Duration::from_millis(200));
    let after = t0 + Duration::from_millis(200);
    assert!(profile.lead() > Duration::from_secs(3), "the backlog is a real lead");

    // Enough steady delivery to turn the window over completely.
    let mut at = after + Duration::from_secs(4);
    for _ in 0..=WINDOW {
        at = continuous(&mut profile, at, RATE_PPS as u64) + Duration::from_millis(1);
    }
    assert!(
        profile.lead() < Duration::from_millis(50),
        "the outage is still sizing the buffer at {:?}",
        profile.lead()
    );
}

#[test]
fn burst_statistics_group_at_the_instruments_threshold() {
    // Reported separately from the sizing measurement, and comparable with an
    // external cadence instrument, which groups at 1 ms.
    let mut profile = Profile::new();
    let t0 = Instant::now();
    for segment in 0..3 {
        let at = t0 + Duration::from_secs(2 * segment);
        burst(&mut profile, at, 12_900, Duration::from_micros(500));
    }
    assert_eq!(profile.bursts(), 2, "three deliveries, two of them closed");
    assert_eq!(profile.burst_max_packets(), 12_900);
}

#[test]
fn silence_marks_the_input_as_between_deliveries() {
    let mut profile = Profile::new();
    let t0 = Instant::now();
    assert!(
        profile.between_deliveries(t0),
        "nothing is arriving before the first packet"
    );
    profile.observe(t0, RATE_PPS);
    assert!(!profile.between_deliveries(t0 + Duration::from_millis(10)));
    assert!(profile.between_deliveries(t0 + lasting(DELIVERY_GAP)));
}

#[test]
fn a_zero_media_rate_is_survivable() {
    // Before the first two PCRs there is no rate to compare arrival against.
    // The burst statistics still work; the lead simply has nothing to say.
    let mut profile = Profile::new();
    let t0 = Instant::now();
    for i in 0..10 {
        profile.observe(t0 + Duration::from_micros(i * 10), 0.0);
    }
    assert_eq!(profile.lead(), Duration::ZERO);
    assert_eq!(profile.burst_max_packets(), 10);
}

#[test]
fn media_time_is_exact_to_the_nanosecond() {
    assert_eq!(arrival::media_duration(1, 1_000_000_000), 1_000_000_000);
    assert_eq!(arrival::media_duration(1, 3_000_000_000), 333_333_333);
    assert_eq!(arrival::media_duration(2, 3_000_000_000), 666_666_667);
    assert_eq!(arrival::media_duration(7, 0), 0);
}

#[test]
fn the_lead_is_what_was_delivered_ahead() {
    // Ten packets at once, at a thousand a second, are ten milliseconds of media.
    let mut profile = ArrivalProfile::default();
    for _ in 0..10 {
        profile.observe(5, 1_000_000_000_000);
    }
    assert_eq!(profile.lead(), 10_000_000);
    assert!(!profile.bursty());
}

#[test]
fn bursts_are_what_silence_separates() {
    // Deliveries of three, one and four packets, a millisecond and more apart; the last
    // is still going.
    let mut profile = Profile::new();
    let t0 = Instant::now();
    let sizes = [3, 1, 4];
    for (i, size) in sizes.iter().enumerate() {
        let at = t0 + Duration::from_millis(2 * i as u64);
        for packet in 0..*size {
            profile.observe(at + Duration::from_micros(100 * packet), 1_000.0);
        }
    }
    assert_eq!(profile.bursts(), 2);
    assert_eq!(profile.burst_max_packets(), 4);
}

#[test]
fn a_delivery_leads_by_what_it_carried_however_it_is_spaced() {
    // Four seconds of media inside 200 ms, most of it at the very end.
    let mut profile = Profile::new();
    let t0 = Instant::now();
    profile.observe(t0, RATE_PPS);
    let mut at = t0;
    for packet in 1..26_595_u64 {
        let offset = if packet < 20 { packet * 9_000 } else { 180_000 + packet / 2 };
        at = t0 + Duration::from_micros(offset);
        profile.observe(at, RATE_PPS);
    }
    assert!(profile.lead() > Duration::from_millis(3_700), "led by {:?}", profile.lead());

    // From four seconds later nine spells at the media rate, a millisecond between them.
    let mut next = at + Duration::from_secs(4);
    for _ in 0..9 {
        next = continuous(&mut profile, next, RATE_PPS as u64) + Duration::from_millis(1);
    }
    assert!(profile.lead() <= media_duration(1, RATE_PPS) + Duration::from_nanos(2));
    assert!(!profile.bursty());
}
