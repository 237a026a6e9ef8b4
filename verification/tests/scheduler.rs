use std::ops::{Add, AddAssign, Sub};
use std::time::Duration;

use mpegts_pacer::media_clock::RATE_WINDOW;
use mpegts_pacer::pcr::{read_pcr, ticks_to_duration, write_pcr, PACKET_BITS, PCR_CLOCK_HZ};
use mpegts_pacer::scheduler::latency_to_packets;
use mpegts_pacer::slot::SlotMap;
use mpegts_pacer::{
    Clocking, Config, Error, Framing, Packet, PcrMode, Scheduler, SourceState, Stats,
    DEFAULT_LATENCY, NULL_PID, TS_PACKET_SIZE,
};

/// A duration as the library counts it.
fn ns(d: Duration) -> u128 {
    d.as_nanos()
}

/// What the library counts, as a duration.
fn lasting(nanos: u128) -> Duration {
    Duration::from_nanos(nanos as u64)
}

/// How long a count of 27 MHz ticks lasts.
fn ticks_to_time(ticks: u64) -> Duration {
    lasting(ticks_to_duration(ticks))
}

/// A point on a synthetic clock.
#[derive(Clone, Copy, Debug, PartialEq, PartialOrd)]
struct Instant(u128);

impl Instant {
    fn now() -> Self {
        Instant(1_000_000_000_000)
    }

    fn duration_since(self, earlier: Instant) -> Duration {
        lasting(self.0 - earlier.0)
    }

    fn saturating_duration_since(self, earlier: Instant) -> Duration {
        lasting(self.0.saturating_sub(earlier.0))
    }
}

impl Add<Duration> for Instant {
    type Output = Instant;

    fn add(self, d: Duration) -> Instant {
        Instant(self.0 + ns(d))
    }
}

impl AddAssign<Duration> for Instant {
    fn add_assign(&mut self, d: Duration) {
        self.0 += ns(d);
    }
}

impl Sub<Instant> for Instant {
    type Output = Duration;

    fn sub(self, earlier: Instant) -> Duration {
        self.duration_since(earlier)
    }
}

/// The weight that samples keep across `nanos` of source time, in parts of two to
/// the sixty-fourth.
fn decay(nanos: u64) -> u64 {
    let weight = (-(nanos as f64) / (RATE_WINDOW as f64)).exp();
    (weight * 18_446_744_073_709_551_616.0) as u64
}

/// A scheduler with its rate estimate folded as it goes.
struct Leg(Scheduler);

impl Leg {
    fn new(config: &Config) -> Self {
        Leg(Scheduler::new(config))
    }

    fn enqueue(&mut self, packet: Packet, now: Instant) {
        if let Some(sample) = self.0.enqueue(packet, now.0) {
            self.0.fold_rate(sample, decay(sample.nanos));
        }
    }

    fn emit_datagram(&mut self, now: Instant) -> &[u8] {
        self.0.emit_datagram(now.0)
    }

    fn next_due(&self) -> Option<Instant> {
        self.0.next_due().map(Instant)
    }

    fn state(&self, now: Instant) -> SourceState {
        self.0.state(now.0)
    }

    fn advance_muted(&mut self, now: Instant) {
        self.0.advance_muted(now.0);
    }

    fn poll_start(&mut self, now: Instant) {
        self.0.poll_start(now.0);
    }

    fn stall_timeout(&self) -> Option<Duration> {
        self.0.stall_timeout().map(lasting)
    }

    fn stats(&self) -> Stats {
        self.0.stats()
    }

    fn framing(&self) -> Option<Framing> {
        self.0.framing()
    }

    fn has_pending(&self) -> bool {
        self.0.has_pending()
    }

    fn buffered_packets(&self) -> usize {
        self.0.buffered_packets()
    }

    fn deferred_packets(&self) -> usize {
        self.0.deferred_packets()
    }
}

/// Values in ascending order.
fn sorted(mut values: Vec<f64>) -> Vec<f64> {
    values.sort_by(f64::total_cmp);
    values
}

const DEFAULT_LATENCY_SECS: f64 = DEFAULT_LATENCY as f64 / 1e9;
const RATE_WINDOW_SECS: f64 = RATE_WINDOW as f64 / 1e9;

const MUX_RATE: u64 = 12_000_000;
// 188 * 8 * 27_000_000 / 12_000_000 = 3384 ticks per packet.
const TICKS_PER_PACKET: u64 = 3_384;

fn config() -> Config {
    Config::new(MUX_RATE)
        .with_latency(ns(Duration::ZERO))
        .with_packets_per_datagram(1)
}

fn content_packet(pid: u16, pcr_ticks: Option<u64>) -> Packet {
    let mut p = [0x00_u8; TS_PACKET_SIZE];
    p[0] = 0x47;
    p[1] = (pid >> 8) as u8 & 0x1f;
    p[2] = pid as u8;
    if let Some(ticks) = pcr_ticks {
        p[3] = 0x30;
        p[4] = 7;
        p[5] = 0x10;
        write_pcr(&mut p[6..12], ticks);
    } else {
        p[3] = 0x10;
    }
    Packet::from_slice(&p).unwrap()
}

fn pid_of(packet: &[u8]) -> u16 {
    (u16::from(packet[1] & 0x1f) << 8) | u16::from(packet[2])
}

fn is_null(packet: &[u8]) -> bool {
    pid_of(packet) == NULL_PID
}

#[test]
fn next_due_advances_at_the_mux_rate() {
    let mut sched = Leg::new(&config().with_packets_per_datagram(1));
    let t0 = Instant::now();
    assert!(sched.next_due().is_none(), "no clock before the first packet");
    sched.enqueue(content_packet(0x100, Some(0)), t0);
    let first = sched.next_due().unwrap();
    assert_eq!(first, t0, "zero latency: output packet 0 is due immediately");
    sched.emit_datagram(first);
    let second = sched.next_due().unwrap();
    // One 188-byte packet at 12 Mb/s = 188 * 8 / 12e6 s.
    let expected = Duration::from_nanos(188 * 8 * 1_000_000_000 / 12_000_000);
    assert_eq!(second.duration_since(t0), expected);
}

#[test]
fn stuffs_null_when_input_is_below_rate() {
    // Media rate ~1000 pps; mux rate ~7978 pps. Most slots should be null.
    let mut sched = Leg::new(&config().with_packets_per_datagram(1));
    let t0 = Instant::now();
    // Two PCRs 1 ms apart carrying 1 content packet each => ~1000 pps.
    sched.enqueue(content_packet(0x100, Some(0)), t0);
    sched.enqueue(content_packet(0x100, Some(27_000)), t0);
    // Emit a datagram every packet-interval for 5 ms of output.
    let mut nulls = 0;
    let mut content = 0;
    for i in 0..100 {
        let due = sched.next_due().unwrap();
        let _ = i;
        let dg = sched.emit_datagram(due).to_vec();
        if is_null(&dg) {
            nulls += 1;
        } else {
            content += 1;
        }
    }
    assert!(
        nulls > content,
        "below-rate input should be mostly null ({nulls} null, {content} content)"
    );
    assert!(sched.stats().null_packets >= 1);
}

#[test]
fn preserve_mode_leaves_pcr_untouched() {
    let cfg = config().with_pcr_mode(PcrMode::Preserve).with_packets_per_datagram(1);
    let mut sched = Leg::new(&cfg);
    let t0 = Instant::now();
    sched.enqueue(content_packet(0x100, Some(123_456)), t0);
    let dg = sched.emit_datagram(sched.next_due().unwrap()).to_vec();
    assert_eq!(read_pcr(&dg), Some(123_456), "preserve keeps the source PCR value");
}

#[test]
fn regenerate_mode_byte_locks_pcr() {
    let cfg = config().with_pcr_mode(PcrMode::Regenerate).with_packets_per_datagram(1);
    let mut sched = Leg::new(&cfg);
    let t0 = Instant::now();
    // Enqueue enough content so the media clock releases several packets.
    for i in 0..8 {
        sched.enqueue(content_packet(0x100, Some(i * 90_000)), t0);
    }
    // Drain: pull datagrams well past the media schedule so all release.
    let mut pcrs = Vec::new();
    let mut now = t0;
    for _ in 0..64 {
        let dg = sched.emit_datagram(now).to_vec();
        if let Some(p) = read_pcr(&dg) {
            pcrs.push((sched.stats().output_packets - 1, p));
        }
        now += Duration::from_millis(1);
    }
    assert!(pcrs.len() >= 2, "expected multiple PCRs, got {}", pcrs.len());
    // Consecutive regenerated PCRs differ by exactly the byte distance.
    let (i0, p0) = pcrs[0];
    let (i1, p1) = pcrs[1];
    assert_eq!(
        p1 - p0,
        (i1 - i0) * TICKS_PER_PACKET,
        "PCR is byte-locked to the mux rate"
    );
}

#[test]
fn reinserts_pcr_to_hold_the_repetition_limit() {
    // A source PCR far sparser than the limit forces re-insertion. With a
    // tiny limit, once the first real PCR anchors the clock every subsequent
    // stuffing slot on the PCR PID carries a byte-locked PCR.
    let cfg = config()
        .with_pcr_mode(PcrMode::Regenerate)
        .with_pcr_max_interval(ns(Duration::from_micros(100)))
        .with_packets_per_datagram(1);
    let mut sched = Leg::new(&cfg);
    let t0 = Instant::now();
    // One PCR packet then plain content (no further PCRs).
    sched.enqueue(content_packet(0x100, Some(0)), t0);
    for _ in 0..3 {
        sched.enqueue(content_packet(0x100, None), t0);
    }

    let mut now = t0;
    let mut pcr_packets = 0;
    let mut injected_on_pcr_pid = 0;
    for _ in 0..40 {
        let dg = sched.emit_datagram(now).to_vec();
        if read_pcr(&dg).is_some() {
            pcr_packets += 1;
            // An adaptation-only (afc=10) PCR packet on 0x100 is a re-insertion.
            if pid_of(&dg) == 0x100 && (dg[3] >> 4) & 0x03 == 0b10 {
                injected_on_pcr_pid += 1;
            }
        }
        now += Duration::from_millis(1);
    }

    assert!(sched.stats().pcr_inserted > 0, "expected PCR re-insertion");
    assert!(injected_on_pcr_pid > 0, "injected PCR must sit on the PCR PID");
    assert!(pcr_packets > 1, "output carries more PCRs than the single source PCR");
}

/// The output slots of an emitted run, split into PCR positions and PIDs.
fn drain_saturated(sched: &mut Leg, from: Instant, slots: usize) -> (Vec<u64>, Vec<u16>) {
    let mut pcr_at = Vec::new();
    let mut pids = Vec::new();
    // Emitting far ahead of the media clock keeps content due at every slot,
    // which is the condition under which stuffing is unavailable.
    let mut now = from;
    for i in 0..slots {
        let dg = sched.emit_datagram(now).to_vec();
        if read_pcr(&dg).is_some() {
            pcr_at.push(i as u64);
        }
        pids.push(pid_of(&dg));
        now += Duration::from_millis(1);
    }
    (pcr_at, pids)
}

#[test]
fn media_rate_is_unbiased_by_clustered_pcr_intervals() {
    // The media-aware arrival pattern: an exact PCR grid whose intervals carry
    // wildly unequal numbers of packets. Every 25th interval is a coded frame,
    // the rest are nearly empty; the true rate is the total over the total.
    let mut sched = Leg::new(&config().with_latency(ns(Duration::from_millis(500))));
    let t0 = Instant::now();
    let mut ticks = 0_u64;
    let mut packets = 0_u64;
    let mut seen = Vec::new();
    let intervals = 400;
    for i in 0..intervals {
        let burst = if i % 25 == 0 { 500 } else { 4 };
        sched.enqueue(content_packet(0x100, Some(ticks)), t0);
        for _ in 1..burst {
            sched.enqueue(content_packet(0x100, None), t0);
        }
        packets += burst;
        ticks += PCR_CLOCK_HZ / 40; // a 25 ms grid
        // Sampled only once the window has filled: the first intervals are
        // dominated by whichever kind of interval arrived first.
        if i as f64 * 0.025 > RATE_WINDOW_SECS {
            seen.push(sched.stats().media_rate_bps as f64 / PACKET_BITS as f64);
        }
    }
    // (500 + 24*4) / (25 * 0.025) = 954.5 packets per second.
    let truth = packets as f64 / (intervals as f64 * 0.025);
    // A finite window on a bursty source oscillates; what matters is that it
    // oscillates *around* the rate rather than sitting under it, because
    // release is `rate * elapsed` and a persistent under-read fills the buffer.
    // A mean of ratios returns a median near a third of the truth on the same input.
    let seen = sorted(seen);
    let median = seen[seen.len() / 2];
    assert!(
        median > truth * 0.85,
        "median estimate {median:.0} pps sits below the true {truth:.0} pps"
    );
    assert!(
        seen[seen.len() - 1] < truth * 1.5,
        "peak estimate {:.0} pps overshoots the true {truth:.0} pps",
        seen[seen.len() - 1]
    );
}

#[test]
fn media_rate_survives_pcr_intervals_that_carry_almost_no_media_time() {
    // The test above puts every PCR on an exact 25 ms grid, which is the one
    // thing a media-aware exporter does not do. One was measured with its PCR packets
    // arriving byte-adjacent -- pairs a tick or two apart -- among intervals of
    // the ordinary length.
    //
    // A near-zero interval is degenerate for a rate estimate: it contributes
    // packets to the numerator and almost nothing to the denominator, and
    // because the window decays on *media* time it also decays almost nothing
    // out. Enough of them and the sums ratchet up without bound, so the
    // estimate ramps linearly for as long as the feed runs. Nothing in a short
    // window shows it, and the wire stays perfectly conformant while it
    // happens: the release loop simply empties the buffer and stuffs the
    // difference.
    let mut sched = Leg::new(&config().with_latency(ns(Duration::from_millis(500))));
    let t0 = Instant::now();
    let mut ticks = 0_u64;
    let mut packets = 0_u64;
    let intervals = 4_000;
    for i in 0..intervals {
        let burst = if i % 25 == 0 { 500 } else { 4 };
        sched.enqueue(content_packet(0x100, Some(ticks)), t0);
        for _ in 1..burst {
            sched.enqueue(content_packet(0x100, None), t0);
        }
        packets += burst;
        // Every other PCR is byte-adjacent to the one before it: one tick of
        // media time, not 25 ms of it.
        ticks += if i % 2 == 0 { 1 } else { PCR_CLOCK_HZ / 40 };
    }
    let elapsed = ticks as f64 / PCR_CLOCK_HZ as f64;
    let truth = packets as f64 / elapsed;
    let estimate = sched.stats().media_rate_bps as f64 / PACKET_BITS as f64;
    assert!(
        estimate < truth * 2.0,
        "estimate {estimate:.0} pps ran away from the true {truth:.0} pps \
         -- degenerate PCR intervals are ratcheting the window"
    );
    assert!(
        estimate > truth * 0.5,
        "estimate {estimate:.0} pps collapsed below the true {truth:.0} pps"
    );
}

#[test]
fn pcr_reinsertion_pre_empts_a_saturated_run() {
    // The media-aware failure mode in miniature: one PCR, then a coded frame's
    // worth of content with no PCR in it and no slot the scheduler declines.
    // Opportunistic insertion has nowhere to put a PCR and the interval runs to
    // the length of the frame.
    let cfg = config()
        .with_latency(ns(Duration::from_millis(500)))
        .with_packets_per_datagram(1);
    let mut sched = Leg::new(&cfg);
    let t0 = Instant::now();
    sched.enqueue(content_packet(0x100, Some(0)), t0);
    for _ in 0..2_000 {
        sched.enqueue(content_packet(0x100, None), t0);
    }
    let (pcr_at, pids) = drain_saturated(&mut sched, t0 + Duration::from_millis(500), 2_100);

    // 0.75 * 40 ms at 12 Mb/s.
    let limit = latency_to_packets(ns(Duration::from_millis(30)), MUX_RATE) as u64;
    let worst = pcr_at.windows(2).map(|w| w[1] - w[0]).max().expect("several PCRs");
    assert!(
        worst <= limit + 1,
        "worst PCR interval {worst} packets exceeds the {limit}-packet deadline"
    );
    assert!(sched.stats().pcr_inserted >= 6, "expected repeated pre-emption");
    // Pre-emption defers content, it does not discard it.
    assert_eq!(sched.stats().content_packets, 2_001, "every content packet was emitted");
    assert_eq!(sched.stats().dropped_packets, 0);
    assert_eq!(sched.stats().late_drops, 0);
    assert!(
        pids.iter()
            .all(|&pid| pid == 0x100 || pid == NULL_PID),
        "output carries only the programme PID and stuffing"
    );
}

#[test]
fn pre_emption_yields_to_a_content_pcr_in_the_same_slot() {
    // Content that carries its own PCR satisfies the deadline, so taking the
    // slot for a synthetic one would emit two PCRs back to back for nothing.
    let cfg = config()
        .with_latency(ns(Duration::from_millis(500)))
        .with_pcr_max_interval(ns(Duration::from_micros(200)))
        .with_packets_per_datagram(1);
    let mut sched = Leg::new(&cfg);
    let t0 = Instant::now();
    // Every packet carries a PCR, so the deadline is met without help.
    for i in 0..200 {
        sched.enqueue(content_packet(0x100, Some(i * TICKS_PER_PACKET)), t0);
    }
    let (_, _) = drain_saturated(&mut sched, t0 + Duration::from_millis(500), 200);
    assert_eq!(
        sched.stats().pcr_inserted,
        0,
        "no synthetic PCR belongs next to a content PCR"
    );
    assert_eq!(sched.stats().content_packets, 200);
}

#[test]
fn deferred_content_drains_into_stuffing() {
    // The carrier cost of pre-emption is one packet per PCR, repaid at the next
    // slot the content clock does not want: the queue must not accumulate.
    let cfg = config()
        .with_latency(ns(Duration::from_millis(500)))
        .with_packets_per_datagram(1);
    let mut sched = Leg::new(&cfg);
    let t0 = Instant::now();
    sched.enqueue(content_packet(0x100, Some(0)), t0);
    for _ in 0..1_000 {
        sched.enqueue(content_packet(0x100, None), t0);
    }
    drain_saturated(&mut sched, t0 + Duration::from_millis(500), 1_200);
    assert!(
        sched.deferred_packets() == 0,
        "the deferral queue drained once content ran out"
    );
    assert_eq!(sched.stats().content_packets, 1_001);
}

#[test]
fn a_snapshot_reports_the_standing_buffer_depth_not_its_peak() {
    // The soak instrument. A feed that runs for months is not graded by the
    // report it prints when it stops, and `buffer_high_water` cannot answer
    // "is the release loop still holding its set point" because it only ever
    // rises: an hour after one transient it still reports the transient. So
    // the snapshot has to carry the live occupancy alongside the peak.
    let cfg = config()
        .with_latency(ns(Duration::from_millis(500)))
        .with_packets_per_datagram(1);
    let mut sched = Leg::new(&cfg);
    let t0 = Instant::now();
    sched.enqueue(content_packet(0x100, Some(0)), t0);
    for _ in 0..1_000 {
        sched.enqueue(content_packet(0x100, None), t0);
    }

    let filled = sched.stats();
    assert_eq!(
        filled.buffer_packets,
        sched.buffered_packets() as u64,
        "the snapshot disagrees with the scheduler about what it is holding"
    );
    assert_eq!(
        filled.buffer_packets, filled.buffer_high_water,
        "nothing has drained yet"
    );

    // Drain it. The peak is a bound that must not move; the standing depth is
    // the reading that must fall - a field wired to the high-water mark by
    // mistake passes every assertion above and fails this one.
    drain_saturated(&mut sched, t0 + Duration::from_millis(500), 1_200);
    let drained = sched.stats();
    assert_eq!(
        drained.buffer_high_water, filled.buffer_high_water,
        "the peak moved while the buffer was emptying"
    );
    assert!(
        drained.buffer_packets < filled.buffer_packets,
        "standing depth {} did not fall below the {} it started at",
        drained.buffer_packets,
        filled.buffer_packets
    );
    assert_eq!(
        drained.buffer_packets,
        sched.buffered_packets() as u64,
        "the snapshot and the scheduler disagree after the drain"
    );
}

#[test]
fn strips_input_null_packets() {
    let mut sched = Leg::new(&config().with_packets_per_datagram(1));
    let t0 = Instant::now();
    // A null packet (PID 0x1FFF) is stuffing: it must not be buffered as media.
    let mut null = [0x00_u8; TS_PACKET_SIZE];
    null[0] = 0x47;
    null[1] = 0x1f;
    null[2] = 0xff;
    null[3] = 0x10;
    sched.enqueue(Packet::from_slice(&null).unwrap(), t0);
    assert_eq!(sched.stats().input_nulls_stripped, 1);
    assert_eq!(sched.buffered_packets(), 0, "input nulls are not buffered");
}

#[test]
fn state_tracks_content_arrival_not_output() {
    let cfg = config()
        .with_latency(ns(Duration::from_millis(10)))
        .with_stall_timeout(Some(ns(Duration::from_millis(200))))
        .with_packets_per_datagram(1);
    let mut sched = Leg::new(&cfg);
    let t0 = Instant::now();

    assert_eq!(sched.state(t0), SourceState::Priming, "no input yet");
    sched.enqueue(content_packet(0x100, Some(0)), t0);
    assert_eq!(sched.state(t0), SourceState::Priming, "still filling the cushion");
    assert_eq!(sched.state(t0 + Duration::from_millis(11)), SourceState::Live);

    // Drain the one packet, then the buffer is dry with no new input.
    sched.emit_datagram(t0 + Duration::from_millis(11));
    assert_eq!(sched.state(t0 + Duration::from_millis(30)), SourceState::Starved);
    assert_eq!(sched.state(t0 + Duration::from_millis(300)), SourceState::Stalled);

    // Content returning clears the stall outright.
    sched.emit_datagram(t0 + Duration::from_millis(300));
    let resumed = t0 + Duration::from_millis(400);
    sched.enqueue(content_packet(0x100, None), resumed);
    assert_eq!(sched.state(resumed), SourceState::Live);
    assert_eq!(sched.stats().stalls, 1, "one stall, not one per output slot");
    assert!(sched.stats().content_gap_max_ms >= 300);
}

#[test]
fn stops_inserting_pcr_when_the_source_stalls() {
    // The pacer's own PCR insertion is what makes a dead feed look conformant
    // downstream, so it must stop with the content.
    let cfg = config()
        .with_pcr_mode(PcrMode::Regenerate)
        .with_pcr_max_interval(ns(Duration::from_micros(100)))
        .with_stall_timeout(Some(ns(Duration::from_millis(200))))
        .with_packets_per_datagram(1);
    let mut sched = Leg::new(&cfg);
    let t0 = Instant::now();
    sched.enqueue(content_packet(0x100, Some(0)), t0);

    let mut now = t0;
    for _ in 0..5 {
        sched.emit_datagram(now);
        now += Duration::from_millis(1);
    }
    let live_insertions = sched.stats().pcr_inserted;
    assert!(live_insertions > 0, "a merely late source still gets its clock held");

    // Past the stall timeout the stream has no clock to hold.
    now += Duration::from_millis(300);
    for _ in 0..40 {
        let datagram = sched.emit_datagram(now).to_vec();
        assert_eq!(read_pcr(&datagram), None, "no PCR in a programme-free carrier");
        now += Duration::from_millis(1);
    }
    assert_eq!(sched.stats().pcr_inserted, live_insertions);
    assert_eq!(sched.stats().stalls, 1);
    assert_eq!(sched.stats().underruns, 0, "a stall is not counted as an underrun");
}

#[test]
fn muted_slots_hold_the_byte_clock_without_emitting() {
    let cfg = config()
        .with_stall_timeout(Some(ns(Duration::from_millis(100))))
        .with_packets_per_datagram(7);
    let mut sched = Leg::new(&cfg);
    let t0 = Instant::now();
    sched.enqueue(content_packet(0x100, Some(0)), t0);
    // Drain the cushion first: buffered media is still content going to air.
    sched.emit_datagram(t0);
    let due_before = sched.next_due().unwrap();
    let emitted_before = sched.stats().output_packets;

    sched.advance_muted(t0 + Duration::from_millis(200));

    let stats = sched.stats();
    assert_eq!(stats.output_packets, emitted_before, "nothing reached the sink");
    assert_eq!(stats.muted_packets, 7);
    assert_eq!(stats.stalls, 1);
    // The byte clock still moved one datagram, so the output position (and the
    // PCR locked to it) stays aligned with real time across the gap.
    let one_datagram = Duration::from_nanos(7 * 188 * 8 * 1_000_000_000 / MUX_RATE);
    assert_eq!(sched.next_due().unwrap() - due_before, one_datagram);
}

#[test]
fn resume_re_anchors_the_media_clock() {
    // Two PCRs 1 ms apart carrying one packet each => ~1000 pps media rate.
    let cfg = config()
        .with_latency(ns(Duration::from_millis(20)))
        .with_stall_timeout(Some(ns(Duration::from_millis(200))))
        .with_packets_per_datagram(1);
    let mut sched = Leg::new(&cfg);
    let t0 = Instant::now();
    sched.enqueue(content_packet(0x100, Some(0)), t0);
    sched.enqueue(content_packet(0x100, Some(27_000)), t0);

    // Release the cushion, then run past the stall timeout with no new input.
    let mut now = t0 + Duration::from_millis(20);
    for _ in 0..4 {
        sched.emit_datagram(now);
        now += Duration::from_millis(1);
    }
    assert_eq!(sched.buffered_packets(), 0, "the cushion is spent");
    now = t0 + Duration::from_secs(2);
    sched.advance_muted(now);
    assert_eq!(sched.stats().stalls, 1);

    // Content returns as a burst, as a reconnecting transport delivers it.
    for _ in 0..50 {
        sched.enqueue(content_packet(0x100, None), now);
    }
    let released_before = sched.stats().content_packets;
    for _ in 0..10 {
        sched.emit_datagram(now);
        now += Duration::from_micros(150);
    }
    assert_eq!(
        sched.stats().content_packets,
        released_before,
        "resume re-primes the cushion instead of dumping the backlog at line rate"
    );

    // Past the priming window content flows again, still at media rate: 15 ms
    // of output at ~1000 pps is nowhere near the 50 packets buffered.
    now += Duration::from_millis(20);
    for _ in 0..100 {
        sched.emit_datagram(now);
        now += Duration::from_micros(150);
    }
    let released = sched.stats().content_packets - released_before;
    assert!(
        (1..30).contains(&released),
        "expected a media-rate trickle after resume, got {released} packets"
    );
}

#[test]
fn flags_discontinuity_on_the_first_pcr_after_a_resume() {
    // The output byte clock ran through the stall, so the emitted PCR is still
    // monotonic; it is the media timeline that has a hole, and that is what the
    // discontinuity indicator is for.
    let cfg = config()
        .with_pcr_mode(PcrMode::Regenerate)
        .with_stall_timeout(Some(ns(Duration::from_millis(200))))
        .with_packets_per_datagram(1);
    let mut sched = Leg::new(&cfg);
    let t0 = Instant::now();
    sched.enqueue(content_packet(0x100, Some(0)), t0);
    let first = sched.emit_datagram(t0).to_vec();
    assert_eq!(first[5] & 0x80, 0, "stream start is not a discontinuity");

    let mut now = t0 + Duration::from_secs(2);
    sched.advance_muted(now);
    sched.enqueue(content_packet(0x100, Some(54_000_000)), now);

    let mut flagged = false;
    for _ in 0..40 {
        let datagram = sched.emit_datagram(now).to_vec();
        if pid_of(&datagram) == 0x100 && read_pcr(&datagram).is_some() && datagram[5] & 0x80 != 0 {
            flagged = true;
        }
        now += Duration::from_millis(1);
    }
    assert!(flagged, "resumed content carries the discontinuity indicator");
}

// --- stream clocking -------------------------------------------------------
//
// The property under test throughout is the one arrival clocking cannot have:
// what a leg emits, and where, is a function of the stream it was given and of
// nothing about the leg. So these tests compare two schedulers rather than
// checking one against an expected transcript.

/// Packets per PCR interval in the synthetic stream below, and the output
/// slots that interval spans - so the stream runs at a fifth of the mux rate
/// and every run is spread across stuffing.
const RUN_LEN: usize = 8;
const RUN_SLOTS: u64 = 40;

fn stream_config() -> Config {
    Config::new(MUX_RATE)
        .with_latency(ns(Duration::from_millis(50)))
        .with_packets_per_datagram(1)
        .with_clocking(Clocking::Stream)
}

/// A synthetic source: `runs` PCR intervals of [`RUN_LEN`] packets, each
/// packet tagged with the media time at which a well-behaved path delivers it.
fn stream_packets(runs: usize) -> Vec<(Packet, Duration)> {
    stream_packets_with_peak(runs, usize::MAX, 0)
}

/// The same, but every `every` runs carries `peak` packets instead of
/// [`RUN_LEN`] - a stream whose instantaneous rate exceeds the mux rate for
/// one PCR interval, as an I-frame does.
fn stream_packets_with_peak(runs: usize, every: usize, peak: usize) -> Vec<(Packet, Duration)> {
    let mut out = Vec::new();
    for run in 0..runs {
        let pcr = run as u64 * RUN_SLOTS * TICKS_PER_PACKET;
        let at = ticks_to_time(pcr);
        let len = if run > 0 && run % every == 0 { peak } else { RUN_LEN };
        for index in 0..len {
            let packet = content_packet(0x100, (index == 0).then_some(pcr));
            out.push((packet, at + Duration::from_micros(index as u64 * 10)));
        }
    }
    out
}

/// Content packets in the output, by continuity counter, so a test can say
/// what reached the wire rather than only where it sat.
fn content_count(leg: &[(Framing, Vec<u8>)]) -> usize {
    leg.iter()
        .flat_map(|(_, dg)| dg.chunks_exact(TS_PACKET_SIZE))
        .filter(|p| pid_of(p) == 0x100)
        .count()
}

/// Everything about a leg that is a property of the leg rather than of the
/// stream: when packets turn up, and how late the OS runs the emit timer.
///
/// Two legs of a pair differ in exactly these two ways and in nothing else.
struct Path {
    arrival: fn(usize) -> Duration,
    wake: fn(u64) -> Duration,
}

/// A path with no delay of either kind, as a reference to vary from.
const PUNCTUAL: Path = Path {
    arrival: |_| Duration::ZERO,
    wake: |_| Duration::ZERO,
};

/// A plausible one: delivery spread inside the release latency, and a timer
/// that fires up to a packet time late. Neither pattern has any relation to
/// the media structure, which is the point.
const JITTERY: Path = Path {
    arrival: |i| Duration::from_micros((i as u64 * 7_919) % 20_000),
    wake: |slot| Duration::from_micros((slot * 4_099) % 120),
};

/// Drive a scheduler over `arrivals` down `path`, and return what came out
/// with the framing it carried.
fn run_leg(
    config: &Config,
    arrivals: &[(Packet, Duration)],
    t0: Instant,
    path: &Path,
    until_slot: u64,
) -> Vec<(Framing, Vec<u8>)> {
    let mut sched = Leg::new(config);
    let mut out = Vec::new();
    let mut next = 0;
    loop {
        while next < arrivals.len() {
            let (packet, at) = &arrivals[next];
            let at = t0 + *at + (path.arrival)(next);
            if sched.next_due().is_some_and(|due| due < at) {
                break;
            }
            sched.enqueue(packet.clone(), at);
            next += 1;
        }
        let Some(due) = sched.next_due() else {
            break;
        };
        // Arrival clocking offers no framing, so the comparison falls back to
        // the position on the wire - which is exactly the point at issue: the
        // nth datagram of one leg is not the nth of the other.
        let framing = sched.framing().unwrap_or(Framing {
            slot: sched.stats().output_packets,
            sequence: sched.stats().output_packets as u16,
            timestamp_90khz: 0,
        });
        if framing.slot >= until_slot {
            break;
        }
        // The timer fires when the OS gets round to it, not when the byte clock
        // says it should. Under arrival clocking that lateness decides how much
        // content is released into the slot; under stream clocking it decides
        // nothing.
        let woke = due + (path.wake)(framing.slot);
        // A stalled source mutes rather than emitting, exactly as the driver
        // does under StallPolicy::Mute - and the slot still advances.
        if sched.state(woke).is_stalled() {
            sched.advance_muted(woke);
            continue;
        }
        out.push((framing, sched.emit_datagram(woke).to_vec()));
    }
    out
}

/// The output as an ST 2022-7 receiver sees it: what byte went in which slot.
fn by_slot(leg: &[(Framing, Vec<u8>)]) -> Vec<(u64, Vec<u8>)> {
    leg.iter().map(|(f, dg)| (f.slot, dg.clone())).collect()
}

/// A source at the mux rate whose PCR *values* are the same exact grid as
/// [`stream_packets`]'s, but whose PCR *positions* are clustered: `cluster`
/// PCR-bearing packets back-to-back, then the media bytes belonging to all the
/// slots that cluster just claimed, then the next cluster.
///
/// This is the shape of a media-aware export: an exact 25 ms value grid, nearly
/// every PCR packet one packet from the previous one, and the media bytes they label
/// heaped between the clusters. Every check on the values passes; the positional
/// cadence is degenerate.
///
/// At the mux rate, so `RUN_SLOTS` slots carry `RUN_SLOTS` packets and the
/// average rate is exactly what the grid is provisioned for. That is the point:
/// the defect is positional, not volumetric, and a rate check cannot see it.
fn stream_packets_clustered(runs: usize, cluster: usize) -> Vec<(Packet, Duration)> {
    let mut out = Vec::new();
    let mut run = 0;
    while run < runs {
        let burst = cluster.min(runs - run);
        let at = ticks_to_time(run as u64 * RUN_SLOTS * TICKS_PER_PACKET);
        let mut offset = 0;
        // The cluster: consecutive packets, one PCR each, values a full run
        // apart. Each claims a whole interval's span and carries one packet.
        for step in 0..burst {
            let pcr = (run + step) as u64 * RUN_SLOTS * TICKS_PER_PACKET;
            out.push((
                content_packet(0x100, Some(pcr)),
                at + Duration::from_micros(offset * 10),
            ));
            offset += 1;
        }
        // The media those intervals were labelling, with no PCR among it, so it
        // all falls in the single run the last PCR of the cluster left open.
        for _ in 0..(burst as u64 * RUN_SLOTS) {
            out.push((content_packet(0x100, None), at + Duration::from_micros(offset * 10)));
            offset += 1;
        }
        run += burst;
    }
    out
}

/// The same volume and the same PCR values, spread evenly - the control.
fn stream_packets_at_rate(runs: usize) -> Vec<(Packet, Duration)> {
    let mut out = Vec::new();
    for run in 0..runs {
        let pcr = run as u64 * RUN_SLOTS * TICKS_PER_PACKET;
        let at = ticks_to_time(pcr);
        for index in 0..RUN_SLOTS {
            let packet = content_packet(0x100, (index == 0).then_some(pcr));
            out.push((packet, at + Duration::from_micros(index * 10)));
        }
    }
    out
}

#[test]
fn a_clustered_pcr_position_displaces_the_grid_and_is_counted() {
    // The assumption `close_run` makes is that packets between two PCRs are
    // proportional to the media time between them. This source breaks it while
    // keeping the values exact, so nothing that grades the values can object.
    //
    // What it must not do is pass silently. The displacement is the figure that
    // says by how much, and it is what tells this apart from a rate peak.
    let cfg = stream_config();
    let clustered = stream_packets_clustered(64, 8);
    let even = stream_packets_at_rate(64);

    let t0 = Instant::now();
    let mut bad = Leg::new(&cfg);
    for (packet, at) in &clustered {
        bad.enqueue(packet.clone(), t0 + *at);
    }
    let mut good = Leg::new(&cfg);
    for (packet, at) in &even {
        good.enqueue(packet.clone(), t0 + *at);
    }

    let bad = bad.stats();
    let good = good.stats();

    // The control carries the same bytes and the same PCR values at the same
    // average rate, so anything it also reports is not the positional defect.
    assert_eq!(
        good.pcr_position_overruns, 0,
        "an evenly spread source overran its own span"
    );
    assert_eq!(
        good.pcr_position_displacement, 0,
        "an evenly spread source displaced the grid by {}",
        good.pcr_position_displacement
    );

    assert!(
        bad.pcr_position_overruns > 0,
        "the clustered source did not register an overrun"
    );
    // A cluster of 8 leaves 8 intervals' worth of media in one interval's span,
    // so placement runs about 8 * RUN_SLOTS slots past where the source's own
    // PCR asks the grid to be.
    let expected = (8 * RUN_SLOTS).saturating_sub(RUN_SLOTS);
    assert!(
        bad.pcr_position_displacement >= expected,
        "displacement {} did not reach the {} slots the clustering implies",
        bad.pcr_position_displacement,
        expected
    );
}

#[test]
fn a_rate_peak_is_not_read_as_a_positional_defect() {
    // The discriminator, stated as a test: an I-frame overruns its interval's
    // span too, and that is legitimate - the excess spills into the stuffing
    // after it and the grid recovers. So `overruns` alone cannot be the guard,
    // and the displacement a peak reaches must stay far below what clustering
    // reaches on the same stream.
    let cfg = stream_config();
    let t0 = Instant::now();

    let mut peaky = Leg::new(&cfg);
    for (packet, at) in &stream_packets_with_peak(64, 8, RUN_SLOTS as usize * 2) {
        peaky.enqueue(packet.clone(), t0 + *at);
    }
    let mut clustered = Leg::new(&cfg);
    for (packet, at) in &stream_packets_clustered(64, 8) {
        clustered.enqueue(packet.clone(), t0 + *at);
    }

    let peaky = peaky.stats().pcr_position_displacement;
    let clustered = clustered.stats().pcr_position_displacement;
    assert!(
        clustered > peaky * 2,
        "a peak displaced {peaky} slots and clustering {clustered}: the two are not distinguishable"
    );
}

#[test]
fn a_clustered_source_does_not_break_byte_identity() {
    // The guard must not buy its diagnosis with the property the mode exists
    // for. Two legs given the clustered source over independent paths still
    // have to agree, because placement is still a function of the delivered
    // packets alone - a displaced grid is displaced identically on both legs.
    let cfg = stream_config();
    let arrivals = stream_packets_clustered(64, 8);
    let t0 = Instant::now();
    let smooth = run_leg(&cfg, &arrivals, t0, &PUNCTUAL, 2_000);
    let rough = run_leg(&cfg, &arrivals, t0, &JITTERY, 2_000);
    assert!(!smooth.is_empty(), "the leg emitted nothing");
    assert_eq!(
        by_slot(&smooth),
        by_slot(&rough),
        "the path changed the output on a clustered source"
    );
}

#[test]
fn stream_clocking_ignores_the_path() {
    // Two legs of a pair see the same objects over independent paths, so they
    // see them at different times and emit them on independently scheduled
    // timers. That is the whole difference between the legs, and it must make
    // no difference to the bytes.
    let cfg = stream_config();
    let arrivals = stream_packets(60);
    let t0 = Instant::now();
    let smooth = run_leg(&cfg, &arrivals, t0, &PUNCTUAL, 2_000);
    let rough = run_leg(&cfg, &arrivals, t0, &JITTERY, 2_000);
    assert!(!smooth.is_empty(), "the leg emitted nothing");
    assert_eq!(by_slot(&smooth), by_slot(&rough), "the path changed the output");
}

#[test]
fn arrival_clocking_does_not() {
    // The negative control: the same stream down two paths clocked on arrival is
    // two different transports.
    let cfg = stream_config().with_clocking(Clocking::Arrival);
    let arrivals = stream_packets(60);
    let t0 = Instant::now();
    let smooth = run_leg(&cfg, &arrivals, t0, &PUNCTUAL, 2_000);
    let rough = run_leg(&cfg, &arrivals, t0, &JITTERY, 2_000);
    assert_ne!(by_slot(&smooth), by_slot(&rough));
}

#[test]
fn a_stream_clocked_leg_still_notices_its_source_die() {
    // A run is held until its closing PCR arrives. If the source dies mid-run
    // that PCR never comes, and treating the held packets as programme in hand
    // would keep the leg reporting Live over a dead feed for as long as it ran
    // - the failure stall detection exists to prevent, reintroduced by the
    // mode that is supposed to make a leg's death visible to its partner.
    let cfg = stream_config().with_stall_timeout(Some(ns(Duration::from_millis(200))));
    let mut sched = Leg::new(&cfg);
    let t0 = Instant::now();
    // Two full runs, then the first half of a third: content with no closing PCR.
    for (packet, at) in stream_packets(3).into_iter().take(2 * RUN_LEN + 4) {
        sched.enqueue(packet, t0 + at);
    }
    // Long past the stall timeout, but with placed content still to transmit:
    // buffered media is programme going to air, however old the silence.
    let now = t0 + Duration::from_secs(1);
    assert_eq!(sched.state(now), SourceState::Live);

    // Once it has all gone out, what is left is a run whose closing PCR will
    // never arrive. That is not programme in hand.
    for _ in 0..4 * RUN_SLOTS {
        sched.emit_datagram(now);
    }
    assert_eq!(sched.state(now), SourceState::Stalled);
    assert_eq!(sched.stats().stalls, 1);
}

#[test]
fn a_rate_peak_spills_forward_instead_of_being_dropped() {
    // A PCR interval carrying more packets than the mux rate has room for is
    // ordinary VBR video against a groomer provisioned on the average rate.
    // The excess has to go in the slots after the peak: dropping it would be a
    // groomer quietly deleting programme, and dropping it identically on both
    // legs would make a redundant pair agree on damage.
    let cfg = stream_config();
    // 90 packets where the grid has 40 slots: two and a bit intervals' worth.
    let arrivals = stream_packets_with_peak(60, 10, 90);
    let t0 = Instant::now();
    let smooth = run_leg(&cfg, &arrivals, t0, &PUNCTUAL, 3_000);
    let rough = run_leg(&cfg, &arrivals, t0, &JITTERY, 3_000);

    // Everything the source produced, less the packets before the first PCR
    // (there is no grid to place those on) and the run left open at the end.
    let peaks = arrivals.len() - RUN_LEN;
    assert!(
        content_count(&smooth) >= peaks - RUN_LEN,
        "the peak cost content: {} of {peaks} packets reached the wire",
        content_count(&smooth)
    );
    assert_eq!(by_slot(&smooth), by_slot(&rough), "the path changed the output");
}

#[test]
fn a_leg_that_joins_late_lands_on_the_running_grid() {
    // Restart-into-alignment: the operational property that a leg brought back
    // after maintenance protects its partner without co-starting the pair.
    let cfg = stream_config();
    let arrivals = stream_packets(60);
    let t0 = Instant::now();
    let running = run_leg(&cfg, &arrivals, t0, &PUNCTUAL, 2_000);
    let joined = run_leg(&cfg, &arrivals[20 * RUN_LEN..], t0, &JITTERY, 2_000);

    let running: std::collections::HashMap<_, _> = by_slot(&running).into_iter().collect();
    let overlap = by_slot(&joined);
    assert!(overlap.len() > 500, "too little overlap to conclude anything");
    for (slot, datagram) in overlap {
        match running.get(&slot) {
            Some(theirs) => assert_eq!(&datagram, theirs, "slot {slot} differs"),
            None => panic!("the late leg emitted slot {slot}, which the running leg never used"),
        }
    }
}

#[test]
fn a_muted_leg_returns_on_its_partner_s_numbering() {
    // Under arrival clocking a leg that
    // stops and returns comes back short by however long it was away, because
    // its numbering counted its own sends. Here it counts stream position, so
    // the outage costs it content and nothing else.
    let cfg = stream_config().with_stall_timeout(Some(ns(Duration::from_millis(200))));
    let whole = stream_packets(120);
    let outage = 40 * RUN_LEN..80 * RUN_LEN;
    let gapped: Vec<_> = whole
        .iter()
        .enumerate()
        .filter(|(i, _)| !outage.contains(i))
        .map(|(_, p)| p.clone())
        .collect();

    let t0 = Instant::now();
    let partner = run_leg(&cfg, &whole, t0, &PUNCTUAL, 4_000);
    let interrupted = run_leg(&cfg, &gapped, t0, &JITTERY, 4_000);

    let partner: std::collections::HashMap<_, _> = partner
        .iter()
        .map(|(f, dg)| (f.slot, (f.sequence, f.timestamp_90khz, dg.clone())))
        .collect();
    let after_outage: Vec<_> = interrupted.iter().filter(|(f, _)| f.slot > (80 * RUN_SLOTS)).collect();
    assert!(after_outage.len() > 200, "the leg did not come back");
    for (framing, datagram) in after_outage {
        let (sequence, timestamp, theirs) = partner
            .get(&framing.slot)
            .unwrap_or_else(|| panic!("slot {} is not on the partner's grid", framing.slot));
        assert_eq!(framing.sequence, *sequence, "RTP sequence diverged after the outage");
        assert_eq!(framing.timestamp_90khz, *timestamp, "RTP timestamp diverged");
        assert_eq!(datagram, theirs, "slot {} differs after the outage", framing.slot);
    }
}

#[test]
fn a_leg_joining_a_running_broadcast_starts_at_the_live_edge() {
    // A relay hands a new subscriber what it has buffered, oldest first. A leg
    // that started on that first packet would sit a backlog behind its partner
    // for the rest of the run: it emits at the mux rate, so it has no way to
    // close the gap. What the pair needs is the phase a leg reaches when it
    // starts from empty on a live feed, whatever the relay had in hand.
    let cfg = stream_config();
    let whole = stream_packets(1_000);
    // Three seconds of programme delivered in one go, then delivery at rate.
    let join_at = ticks_to_time(600 * RUN_SLOTS * TICKS_PER_PACKET);
    let backlogged: Vec<_> = whole
        .iter()
        .map(|(packet, at)| (packet.clone(), (*at).max(join_at)))
        .collect();

    let t0 = Instant::now();
    let partner = run_leg(&cfg, &whole, t0, &PUNCTUAL, 40_000);
    let joiner = run_leg(&cfg, &backlogged, t0, &JITTERY, 40_000);

    let first = joiner.first().expect("the joining leg emitted nothing").0.slot;
    let edge = 600 * RUN_SLOTS;
    assert!(
        first > edge - 1_000,
        "the leg started {} slots behind the edge: it took the backlog as its phase",
        edge.saturating_sub(first)
    );

    // Having skipped the backlog, it must still be on the same grid.
    let partner: std::collections::HashMap<_, _> = by_slot(&partner).into_iter().collect();
    let overlap = by_slot(&joiner[1..]);
    assert!(overlap.len() > 1_000, "too little overlap to conclude anything");
    for (slot, datagram) in overlap {
        let theirs = partner
            .get(&slot)
            .unwrap_or_else(|| panic!("slot {slot} is not on the partner's grid"));
        assert_eq!(&datagram, theirs, "slot {slot} differs");
    }
}

#[test]
fn a_backlog_delivered_after_the_clock_starts_moves_it_to_the_live_edge() {
    // The shape a relay actually serves a new subscriber: a little content,
    // then the rest of its buffer once the subscription is going. Choosing the
    // phase at the first packet is not enough - by the time the backlog lands
    // the leg is already running, and it would stay a buffer's depth behind
    // its partner for the rest of the run.
    let cfg = stream_config()
        .with_latency(ns(Duration::from_millis(50)))
        .with_max_latency(ns(Duration::from_millis(500)));
    let mut sched = Leg::new(&cfg);
    let stream = stream_packets(1_000);
    let t0 = Instant::now();
    for (packet, at) in &stream[..10 * RUN_LEN] {
        sched.enqueue(packet.clone(), t0 + *at);
    }
    let now = t0 + Duration::from_millis(50);
    sched.emit_datagram(now);
    let before = sched.framing().expect("stream clocking").slot;

    for (packet, _) in &stream[10 * RUN_LEN..] {
        sched.enqueue(packet.clone(), now);
    }
    sched.emit_datagram(now);
    let after = sched.framing().expect("stream clocking").slot;

    assert_eq!(sched.stats().resyncs, 1, "the leg did not move to the edge");
    let edge = 999 * RUN_SLOTS;
    assert!(
        after > edge - 1_000 && after > before + 30_000,
        "slot went {before} -> {after}, with the stream's edge at {edge}"
    );
    // And it is at the edge to carry it, not to sit in front of it.
    assert!(sched.has_pending(), "nothing left to send at the edge");
}

#[test]
fn an_outage_longer_than_a_splice_is_still_an_outage() {
    // A leg off the air for longer than a source discontinuity is allowed to
    // look like has to come back onto the grid, not re-anchor itself as though
    // the programme had been spliced. Getting this wrong is silent: the leg
    // resumes, its numbering is right, and every packet it carries is placed in
    // the past and dropped, so it protects nothing.
    let cfg = stream_config().with_stall_timeout(Some(ns(Duration::from_millis(200))));
    // One run is ~5 ms, so the outage here is ~6 s: comfortably past the point
    // at which a forward PCR jump would otherwise be read as a splice.
    let whole = stream_packets(1_600);
    let outage = 300 * RUN_LEN..1_500 * RUN_LEN;
    let gapped: Vec<_> = whole
        .iter()
        .enumerate()
        .filter(|(i, _)| !outage.contains(i))
        .map(|(_, p)| p.clone())
        .collect();

    let t0 = Instant::now();
    let partner = run_leg(&cfg, &whole, t0, &PUNCTUAL, 64_000);
    let interrupted = run_leg(&cfg, &gapped, t0, &JITTERY, 64_000);

    let partner: std::collections::HashMap<_, _> = partner
        .iter()
        .map(|(f, dg)| (f.slot, (f.sequence, dg.clone())))
        .collect();
    let after: Vec<_> = interrupted.iter().filter(|(f, _)| f.slot > 1_500 * RUN_SLOTS).collect();
    assert!(after.len() > 1_000, "the leg did not come back");
    for (framing, datagram) in &after {
        let (sequence, theirs) = partner
            .get(&framing.slot)
            .unwrap_or_else(|| panic!("slot {} is not on the partner's grid", framing.slot));
        assert_eq!(framing.sequence, *sequence, "RTP sequence diverged across the outage");
        assert_eq!(datagram, theirs, "slot {} differs after the outage", framing.slot);
    }

    // Numbering alone is not a return to service. The leg has to be carrying
    // the programme again, which is what the splice reading cost it.
    let carried = after
        .iter()
        .flat_map(|(_, dg)| dg.chunks_exact(TS_PACKET_SIZE))
        .filter(|p| pid_of(p) == 0x100)
        .count();
    assert!(
        carried > 500,
        "the leg resumed carrying no programme: {carried} packets"
    );
}

#[test]
fn datagram_boundaries_come_off_the_grid_too() {
    // Same bytes packed into differently-cut datagrams merge no better than
    // different bytes, so where a leg's first content lands must not decide
    // where its datagrams are split.
    let cfg = stream_config().with_packets_per_datagram(7);
    let arrivals = stream_packets(60);
    let t0 = Instant::now();
    let running = run_leg(&cfg, &arrivals, t0, &PUNCTUAL, 2_000);
    // Cut mid-datagram: run 21 opens at slot 840, which is 7-aligned, so drop
    // three more packets to make sure the leg's first content is not.
    let joined = run_leg(&cfg, &arrivals[21 * RUN_LEN + 3..], t0, &JITTERY, 2_000);

    let running: std::collections::HashMap<_, _> = by_slot(&running).into_iter().collect();
    // The first datagram is partial by construction: the leg joined inside it,
    // so it is short the content its partner already had. Alignment is a claim
    // about every datagram after the one the leg arrived in.
    let overlap = by_slot(&joined[1..]);
    assert!(overlap.len() > 100, "too little overlap to conclude anything");
    for (slot, datagram) in overlap {
        assert_eq!(slot % 7, 0, "datagram starts off the boundary at slot {slot}");
        let theirs = running
            .get(&slot)
            .unwrap_or_else(|| panic!("slot {slot} is not on the partner's grid"));
        assert_eq!(&datagram, theirs, "slot {slot} differs");
    }
}

#[test]
fn emitted_pcr_is_the_slot_it_sits_in() {
    // Under arrival clocking the emitted PCR is byte-locked to an anchor this
    // process chose. Under stream clocking there is no anchor: the value is the
    // slot, so two legs agree on it without having agreed on anything.
    let cfg = stream_config();
    let map = SlotMap::new(MUX_RATE);
    let leg = run_leg(&cfg, &stream_packets(40), Instant::now(), &PUNCTUAL, 1_200);
    let mut seen = 0;
    for (framing, datagram) in &leg {
        let Some(value) = read_pcr(datagram) else {
            continue;
        };
        assert_eq!(value, map.pcr_of_slot(framing.slot), "slot {}", framing.slot);
        seen += 1;
    }
    assert!(seen > 10, "expected PCRs in the output, saw {seen}");
}

#[test]
fn a_sequence_seed_offsets_the_pair_without_unlocking_it() {
    let base = stream_config();
    let seeded = base.with_sequence_seed(9_000);
    let arrivals = stream_packets(20);
    let t0 = Instant::now();
    let plain = run_leg(&base, &arrivals, t0, &PUNCTUAL, 600);
    let offset = run_leg(&seeded, &arrivals, t0, &JITTERY, 600);
    assert_eq!(by_slot(&plain), by_slot(&offset), "the seed must not move any bytes");
    for ((a, _), (b, _)) in plain.iter().zip(offset.iter()) {
        assert_eq!(b.sequence, a.sequence.wrapping_add(9_000));
    }
}

#[test]
fn stream_clocking_rejects_a_config_it_cannot_honour() {
    // Both of these would silently produce a leg whose grid is its own: an
    // auto rate is measured from one process's arrival window, and a preserved
    // PCR is not the slot. Better a refused config than output that does not
    // merge.
    let auto = Config::auto().with_clocking(Clocking::Stream);
    assert!(matches!(auto.validate(), Err(Error::Config(_))));
    let preserved = Config::new(MUX_RATE)
        .with_clocking(Clocking::Stream)
        .with_pcr_mode(PcrMode::Preserve);
    assert!(matches!(preserved.validate(), Err(Error::Config(_))));
    assert!(stream_config().validate().is_ok());
    assert!(config().validate().is_ok(), "arrival clocking constrains nothing");
}

// --- adaptive sizing ---------------------------------------------------------

/// The mux rate in packets per second, and the media rate of the synthetic
/// segmented stream below (a fifth under the mux rate, as a groomed feed is).
const MUX_PPS: f64 = MUX_RATE as f64 / PACKET_BITS as f64;
const MEDIA_PPS: f64 = MUX_PPS * 0.8;

fn adaptive_config() -> Config {
    Config::new(MUX_RATE).with_packets_per_datagram(1)
}

/// A contiguous stream, one PCR every `PCR_EVERY` packets, handed to `sched` a
/// segment at a time: `segments` deliveries of `segment` of media each, every
/// `segment` of wall time, each fetched in `fetch`. The PCR timeline is
/// continuous across the deliveries, as a segmenter's output is.
const PCR_EVERY: u64 = 20;

fn deliver_segments(
    sched: &mut Leg,
    t0: Instant,
    segment: Duration,
    fetch: Duration,
    segments: u32,
) -> Instant {
    let per_segment = (segment.as_secs_f64() * MEDIA_PPS) as u64;
    let mut index = 0_u64;
    for n in 0..segments {
        let at = t0 + segment.mul_f64(f64::from(n));
        for i in 0..per_segment {
            let pcr = index * (PCR_CLOCK_HZ / MEDIA_PPS as u64);
            let packet = content_packet(0x100, (index % PCR_EVERY == 0).then_some(pcr));
            sched.enqueue(packet, at + fetch.mul_f64(i as f64 / per_segment as f64));
            index += 1;
        }
    }
    t0 + segment.mul_f64(f64::from(segments))
}

#[test]
fn a_segmented_input_sizes_its_own_cushion() {
    // The whole point of this: fed a feed that arrives a segment at a time, the
    // pacer works out that it needs seconds of buffer rather than the
    // milliseconds a continuous feed needs, without being told.
    let mut sched = Leg::new(&adaptive_config());
    let t0 = Instant::now();
    deliver_segments(&mut sched, t0, Duration::from_secs(2), Duration::from_millis(300), 3);

    let stats = sched.stats();
    assert!(
        (1_500..2_100).contains(&stats.arrival_lead_ms),
        "expected a lead near the segment duration, got {} ms",
        stats.arrival_lead_ms
    );
    assert!(
        (4_000..8_001).contains(&stats.latency_target_ms),
        "expected a cushion of several seconds, got {} ms",
        stats.latency_target_ms
    );
    // And the derived stall timeout is past the doubled gap a segment fetcher
    // produces when it misses a publish cycle.
    let timeout = sched.stall_timeout().expect("a derived timeout");
    assert!(
        timeout >= Duration::from_secs(4),
        "a 4 s inter-segment gap would still mute at {timeout:?}"
    );
}

#[test]
fn a_continuous_input_keeps_the_millisecond_cushion() {
    // The regression guard: serving a segmented plane must cost the object
    // plane nothing. A feed delivered at the media rate never gets ahead, so
    // adaptive sizing leaves it on the floor and the run is indistinguishable
    // from one on a pinned 200 ms cushion.
    let mut sched = Leg::new(&adaptive_config());
    let t0 = Instant::now();
    let slot = Duration::from_secs_f64(1.0 / MUX_PPS);
    let per_packet = Duration::from_secs_f64(1.0 / MEDIA_PPS);
    let mut delivered = 0_u64;

    // Interleaved, as a live run is: input trickles in at the media rate while
    // the output byte clock runs at the mux rate.
    for output in 0..(20.0 * MUX_PPS) as u64 {
        let now = t0 + slot.mul_f64(output as f64);
        while per_packet.mul_f64(delivered as f64) <= now.saturating_duration_since(t0) {
            let pcr = delivered * (PCR_CLOCK_HZ / MEDIA_PPS as u64);
            let packet = content_packet(0x100, (delivered % PCR_EVERY == 0).then_some(pcr));
            sched.enqueue(packet, now);
            delivered += 1;
        }
        if sched.next_due().is_some() {
            sched.emit_datagram(now);
        }
    }

    let stats = sched.stats();
    assert_eq!(
        stats.latency_target_ms,
        (DEFAULT_LATENCY / 1_000_000) as u64,
        "a continuous feed must stay on the configured floor (lead {} ms)",
        stats.arrival_lead_ms
    );
    assert_eq!(stats.dropped_packets, 0, "and must not have its buffer tightened");
    assert_eq!(stats.stalls, 0, "nor be read as a dead source");
    assert!(
        stats.buffer_high_water < (DEFAULT_LATENCY_SECS * MEDIA_PPS * 2.0) as u64,
        "the cushion grew to {} packets on a feed that never got ahead",
        stats.buffer_high_water
    );
}

#[test]
fn the_start_gate_waits_out_a_delivery_before_committing() {
    // A segmented feed reaches a 200 ms cushion a few milliseconds into a 2 s
    // segment fetch. Starting there is what makes the ordinary gap before the
    // next segment read as an underrun, so the start has to wait for the
    // delivery to end - at which point the burst has sized the cushion, and the
    // cushion is deeper than what is in hand.
    let mut sched = Leg::new(&adaptive_config());
    let t0 = Instant::now();
    deliver_segments(&mut sched, t0, Duration::from_secs(2), Duration::from_millis(300), 1);
    assert!(
        sched.next_due().is_none(),
        "the clock started on one segment, holding {} ms against a {} ms cushion",
        (sched.buffered_packets() as f64 / MEDIA_PPS * 1000.0) as u64,
        sched.stats().latency_target_ms
    );
    assert_eq!(sched.state(t0 + Duration::from_secs(1)), SourceState::Priming);

    // Enough deliveries to fill the cushion it decided on, and it starts.
    deliver_segments(&mut sched, t0, Duration::from_secs(2), Duration::from_millis(300), 5);
    sched.poll_start(t0 + Duration::from_secs(10));
    assert!(sched.next_due().is_some(), "the clock never started");
}

#[test]
fn a_pinned_cushion_still_starts_on_a_timer() {
    // Setting a depth explicitly turns the content gate off: the operator has
    // said how deep the buffer is, so there is nothing to learn by waiting.
    let cfg = adaptive_config().with_latency(ns(Duration::from_millis(50)));
    let mut sched = Leg::new(&cfg);
    let t0 = Instant::now();
    sched.enqueue(content_packet(0x100, Some(0)), t0);
    assert_eq!(
        sched.next_due(),
        Some(t0 + Duration::from_millis(50)),
        "a pinned cushion arms on the first packet"
    );
}

#[test]
fn a_segment_larger_than_the_buffer_is_not_dropped() {
    // The failure that made a groomer configured for an object transport
    // unusable on a segmented one: a 2 s segment against a 2 s buffer bound
    // overflows on arrival, so the groomer deletes programme from a healthy
    // feed, once per segment, silently.
    let mut sched = Leg::new(&adaptive_config());
    let t0 = Instant::now();
    deliver_segments(&mut sched, t0, Duration::from_secs(2), Duration::from_millis(300), 4);
    assert_eq!(
        sched.stats().dropped_packets,
        0,
        "dropped programme from a healthy segmented feed"
    );
    assert!(
        sched.stats().buffer_high_water > (2.0 * MEDIA_PPS) as u64,
        "the buffer never held a whole segment: high water {}",
        sched.stats().buffer_high_water
    );
}

#[test]
fn a_long_gap_on_a_contiguous_stream_is_not_a_splice() {
    // A segment fetcher that misses a publish cycle waits two periods and then
    // collects both segments, so the stream it hands over is contiguous however
    // long the silence was. Nothing may read that silence as a source
    // discontinuity: a spurious re-base steps the emitted PCR off the byte
    // clock, which is the one thing a groomer exists to guarantee.
    let cfg = adaptive_config().with_pcr_mode(PcrMode::Regenerate);
    let mut sched = Leg::new(&cfg);
    let t0 = Instant::now();
    let segment = Duration::from_secs(6);
    // Two deliveries twelve seconds apart: one missed publish cycle at the
    // long segment duration.
    deliver_segments(&mut sched, t0, segment * 2, Duration::from_millis(900), 2);

    let mut now = t0;
    let mut flagged = 0;
    for _ in 0..(30.0 * MUX_PPS) as u64 {
        let datagram = sched.emit_datagram(now).to_vec();
        if read_pcr(&datagram).is_some() && datagram[5] & 0x80 != 0 {
            flagged += 1;
        }
        now += Duration::from_secs_f64(1.0 / MUX_PPS);
    }
    assert_eq!(sched.stats().pcr_rebases, 0, "the silence was read as a splice");
    assert_eq!(flagged, 0, "{flagged} PCRs falsely flagged discontinuous");
}

#[test]
fn drops_oldest_past_max_latency() {
    // Tiny max_latency => small buffer; a burst overflows and drops.
    let cfg = Config::new(MUX_RATE)
        .with_latency(ns(Duration::ZERO))
        .with_max_latency(ns(Duration::from_micros(200))) // ~2 packets at 12 Mb/s
        .with_packets_per_datagram(1);
    let mut sched = Leg::new(&cfg);
    let t0 = Instant::now();
    for _ in 0..50 {
        sched.enqueue(content_packet(0x100, None), t0);
    }
    assert!(sched.stats().dropped_packets > 0, "a burst past max_latency must drop");
}

#[test]
fn content_taken_on_waits_or_is_counted_as_dropped() {
    let cfg = Config::new(MUX_RATE)
        .with_latency(ns(Duration::ZERO))
        .with_max_latency(ns(Duration::from_micros(400)))
        .with_packets_per_datagram(1);
    let mut sched = Leg::new(&cfg);
    let t0 = Instant::now();
    for taken in 1..=20_u64 {
        sched.enqueue(content_packet(0x100, None), t0);
        let stats = sched.stats();
        assert_eq!(stats.buffer_packets + stats.dropped_packets, taken);
        assert_eq!(stats.content_packets, 0);
    }
    // Four packets take 501 microseconds at 12 Mb/s, so the bound is four of them.
    assert_eq!(sched.stats().buffer_packets, 4);
    assert_eq!(sched.stats().dropped_packets, 16);
}

#[test]
fn a_pinned_leg_is_not_started_by_a_poll() {
    // One PCR opens a run and places nothing, so a stream-clocked leg has no slot to
    // start at, and at pinned depths there is no wait to have gone on too long.
    let mut sched = Leg::new(&stream_config());
    let t0 = Instant::now();
    sched.enqueue(content_packet(0x100, Some(0)), t0);
    sched.poll_start(t0);
    assert_eq!(sched.next_due(), None);
    sched.poll_start(t0 + Duration::from_secs(60));
    assert_eq!(sched.next_due(), None);

    // The PCR that ends the run is what starts it.
    let at = t0 + Duration::from_millis(5);
    sched.enqueue(content_packet(0x100, Some(RUN_SLOTS * TICKS_PER_PACKET)), at);
    assert_eq!(sched.next_due(), Some(at + Duration::from_millis(50)));
}

#[test]
fn a_media_rate_not_yet_measured_reads_as_the_mux_rate() {
    // 12 Mb/s is 7978.72 packets a second; read back, the rate is what went in.
    assert_eq!(Leg::new(&config()).stats().media_rate_bps, 12_000_000);
}

/// Drive a leg with everything that can happen to one, and hold its counters against
/// what it was given after each event.
fn account_for(config: &Config, arrivals: &[(Packet, Duration)]) -> Stats {
    let mut sched = Leg::new(config);
    let t0 = Instant::now();
    let mut taken = 0;
    let mut stuffing = 0;
    let mut sent = 0;
    let mut sent_stuffing = 0;
    let mut next = 0;
    for tick in 0..6_000_u64 {
        let now = t0 + Duration::from_micros(tick * 250);
        while next < arrivals.len() && t0 + arrivals[next].1 <= now {
            let packet = arrivals[next].0.clone();
            if is_null(packet.as_bytes()) {
                stuffing += 1;
            } else {
                taken += 1;
            }
            sched.enqueue(packet, now);
            next += 1;
        }
        sched.poll_start(now);
        if tick == 5_000 {
            sched.0.flush();
        }
        while sched.next_due().is_some_and(|due| due <= now) {
            if sched.state(now).is_stalled() {
                sched.advance_muted(now);
            } else {
                for packet in sched.emit_datagram(now).to_vec().chunks(TS_PACKET_SIZE) {
                    sent += 1;
                    sent_stuffing += u64::from(is_null(packet));
                }
            }
        }
        let stats = sched.stats();
        assert_eq!(
            taken,
            stats.content_packets + stats.dropped_packets + stats.late_drops + stats.buffer_packets,
            "tick {tick}"
        );
        assert_eq!(stats.input_nulls_stripped, stuffing);
        assert_eq!(stats.output_packets, sent);
        assert_eq!(stats.null_packets, sent_stuffing);
        assert_eq!(
            stats.output_packets,
            stats.content_packets + stats.null_packets + stats.pcr_inserted
        );
    }
    assert_eq!(next, arrivals.len());
    sched.stats()
}

#[test]
fn every_packet_is_accounted_for_whatever_happens() {
    // An outage long enough to mute, a backlog delivered at once, and stuffing in the
    // input, under both clockings.
    let mut arrivals: Vec<(Packet, Duration)> = Vec::new();
    for (packet, at) in stream_packets(200) {
        if at < Duration::from_millis(300) || at > Duration::from_millis(700) {
            let at = at.min(Duration::from_millis(720));
            arrivals.push((packet, at));
            arrivals.push((content_packet(NULL_PID, None), at));
        }
    }
    let pinned = stream_config()
        .with_max_latency(ns(Duration::from_millis(100)))
        .with_stall_timeout(Some(ns(Duration::from_millis(200))))
        .with_packets_per_datagram(7);
    let by_stream = account_for(&pinned, &arrivals);
    assert!(by_stream.content_packets > 0 && by_stream.resyncs > 0);
    let by_arrival = account_for(&pinned.with_clocking(Clocking::Arrival), &arrivals);
    assert!(by_arrival.content_packets > 0 && by_arrival.input_nulls_stripped > 0);
}

#[test]
fn legs_fall_in_step_where_they_insert_pcrs_of_their_own() {
    // A source whose PCRs are 80 ms apart, twice the repetition limit: both legs have
    // to insert, and a late one first has to learn when the last PCR went out.
    const FAR: u64 = 640;
    let mut arrivals = Vec::new();
    for run in 0..60_u64 {
        let pcr = run * FAR * TICKS_PER_PACKET;
        for index in 0..RUN_LEN {
            let packet = content_packet(0x100, (index == 0).then_some(pcr));
            arrivals.push((packet, ticks_to_time(pcr) + Duration::from_micros(index as u64 * 10)));
        }
    }
    let cfg = stream_config()
        .with_latency(ns(Duration::from_millis(200)))
        .with_max_latency(ns(Duration::from_millis(400)));
    let t0 = Instant::now();
    let running = run_leg(&cfg, &arrivals, t0, &PUNCTUAL, 50 * FAR);
    let joined = run_leg(&cfg, &arrivals[20 * RUN_LEN..], t0, &JITTERY, 50 * FAR);

    // The first source PCR that the late leg carries is where the two fall in step.
    let first = joined
        .iter()
        .find(|(_, dg)| read_pcr(dg).is_some())
        .map(|(f, _)| f.slot)
        .expect("a PCR goes out");
    let running: std::collections::HashMap<_, _> = by_slot(&running).into_iter().collect();
    let mut inserted = 0;
    for (slot, datagram) in by_slot(&joined).into_iter().filter(|(slot, _)| *slot >= first) {
        assert_eq!(Some(&datagram), running.get(&slot), "slot {slot} differs");
        inserted += usize::from(read_pcr(&datagram).is_some() && slot % FAR != 0);
    }
    assert!(inserted > 20, "only {inserted} PCRs were inserted");
}

#[test]
fn a_splice_keeps_a_pair_aligned() {
    // The source clock jumps by twenty seconds, and later repeats itself, while content
    // keeps coming: no silence explains either, so both legs go on where they were.
    let mut arrivals = Vec::new();
    for run in 0..90_u64 {
        let at = ticks_to_time(run * RUN_SLOTS * TICKS_PER_PACKET);
        let jump = if run >= 30 { 20 * PCR_CLOCK_HZ } else { 0 };
        let back = u64::from(run >= 60) * RUN_SLOTS * TICKS_PER_PACKET;
        let pcr = run * RUN_SLOTS * TICKS_PER_PACKET + jump - back;
        for index in 0..RUN_LEN {
            let packet = content_packet(0x100, (index == 0).then_some(pcr));
            arrivals.push((packet, at + Duration::from_micros(index as u64 * 10)));
        }
    }
    let cfg = stream_config();
    let t0 = Instant::now();
    let one = run_leg(&cfg, &arrivals, t0, &PUNCTUAL, 3_000);
    let other = run_leg(&cfg, &arrivals, t0, &JITTERY, 3_000);
    let other: std::collections::HashMap<_, _> = by_slot(&other).into_iter().collect();
    let mut compared = 0;
    for (slot, datagram) in by_slot(&one) {
        if let Some(theirs) = other.get(&slot) {
            assert_eq!(&datagram, theirs, "slot {slot} differs");
            compared += usize::from(!is_null(&datagram));
        }
    }
    assert!(compared > 500, "only {compared} packets of content to compare");
}

#[test]
fn the_repetition_limit_holds_through_mutes_and_moves() {
    // A source whose PCRs are 100 ms apart, with an outage that mutes the output and a
    // backlog that moves it, under both clockings: thirty milliseconds are 240 packets.
    let mut arrivals = Vec::new();
    for run in 0..40_u64 {
        let pcr = run * 800 * TICKS_PER_PACKET;
        let at = ticks_to_time(pcr);
        if (Duration::from_millis(1_000)..Duration::from_millis(2_000)).contains(&at) {
            continue;
        }
        let at = if at > Duration::from_millis(3_000) { Duration::from_millis(3_000) } else { at };
        for index in 0..40 {
            arrivals.push((content_packet(0x100, (index == 0).then_some(pcr)), at));
        }
    }
    for clocking in [Clocking::Stream, Clocking::Arrival] {
        let cfg = stream_config()
            .with_latency(ns(Duration::from_millis(150)))
            .with_max_latency(ns(Duration::from_millis(400)))
            .with_stall_timeout(Some(ns(Duration::from_millis(200))))
            .with_packets_per_datagram(7)
            .with_clocking(clocking);
        let mut sched = Leg::new(&cfg);
        let t0 = Instant::now();
        let (mut next, mut pcrs, mut since, mut muted) = (0, 0, 0_u64, 0);
        for tick in 0..16_000_u64 {
            let now = t0 + Duration::from_micros(tick * 250);
            while next < arrivals.len() && t0 + arrivals[next].1 <= now {
                sched.enqueue(arrivals[next].0.clone(), now);
                next += 1;
            }
            while sched.next_due().is_some_and(|due| due <= now) {
                if sched.state(now).is_stalled() {
                    sched.advance_muted(now);
                    muted += 1;
                    continue;
                }
                for packet in sched.emit_datagram(now).to_vec().chunks(TS_PACKET_SIZE) {
                    if read_pcr(packet).is_some() {
                        pcrs += 1;
                        since = 0;
                    } else if pcrs > 0 {
                        since += 1;
                    }
                    assert!(since < 240, "{since} packets without a PCR under {clocking:?}");
                }
            }
        }
        assert!(pcrs > 50, "{pcrs} PCRs went out");
        assert!(muted > 0, "the outage did not mute");
    }
}
