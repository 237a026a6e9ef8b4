//! End-to-end pacing over the engine, on a virtual clock.
//!
//! The clock moves only when the engine waits, straight to whatever it waits for, so
//! these runs are deterministic yet exercise the whole source -> engine -> sink path.

use std::collections::HashMap;
use std::time::Duration;

use mpegts_pacer::media_clock::{RateSample, RATE_WINDOW};
use mpegts_pacer::pacer::{Engine, Step, Turn, Warmup};
use mpegts_pacer::slot::SlotMap;
use mpegts_pacer::{
    Bitrate, Clocking, Config, Error, Framing, Health, Packet, PcrMode, PcrPositionPolicy,
    SourceState, StallPolicy, Stats, NULL_PID, TS_PACKET_SIZE,
};

const MUX_RATE: u64 = 10_000_000;
const MEDIA_PID: u16 = 0x100;
// 188 * 8 * 27_000_000 / 10_000_000 = 4060.8; not integer, so PCR steps are
// checked as byte-proportional rather than a fixed constant.

fn ns(d: Duration) -> u128 {
    d.as_nanos()
}

/// What the library counts, as a duration.
fn lasting(nanos: u128) -> Duration {
    Duration::from_nanos(nanos as u64)
}

/// What a source has at an instant.
enum Polled {
    /// A packet, now.
    Packet(Packet),
    /// Nothing before this instant.
    Until(u128),
    /// Nothing, for good, without ending.
    Never,
    /// The end.
    End,
}

trait Source {
    fn poll(&mut self, now: u128) -> Polled;
}

/// A source that yields packets from memory.
struct IterSource(std::vec::IntoIter<Packet>);

impl IterSource {
    fn new(packets: Vec<Packet>) -> Self {
        IterSource(packets.into_iter())
    }
}

impl Source for IterSource {
    fn poll(&mut self, _now: u128) -> Polled {
        match self.0.next() {
            Some(packet) => Polled::Packet(packet),
            None => Polled::End,
        }
    }
}

/// A source that hands over its packets in chunks, pausing between them: a path
/// that delivers the same objects as its partner, but not at the same times.
///
/// The chunk lands at one instant - a fetch at line rate. Two shapes matter, and they
/// differ by two orders of magnitude in both dimensions: kilobyte chunks milliseconds
/// apart from an object transport, and megabyte chunks seconds apart from a
/// segment-fetching one, whose gap occasionally doubles when the client misses a
/// publish cycle.
struct BurstySource {
    packets: std::vec::IntoIter<Packet>,
    chunk: usize,
    gap: Duration,
    /// `(every, times)`: every `every`th cycle waits `times` as long and then
    /// delivers `times` as much, which is what a client that missed a publish
    /// cycle does - it collects the segments it is owed. The two halves are the
    /// same event, and modelling only the long gap misses that the burst which
    /// ends it is the one that overflows the buffer.
    stretch: Option<(usize, u32)>,
    bursts: usize,
    /// Packets the burst being waited for will carry.
    pending: usize,
    remaining: usize,
    next_burst: Option<u128>,
}

impl BurstySource {
    fn new(packets: Vec<Packet>, chunk: usize, gap: Duration) -> Self {
        Self {
            packets: packets.into_iter(),
            chunk,
            gap,
            stretch: None,
            bursts: 0,
            pending: chunk,
            remaining: chunk,
            next_burst: None,
        }
    }

    /// The same, with every `every`th cycle `times` as long and as large.
    fn uneven(packets: Vec<Packet>, chunk: usize, gap: Duration, every: usize, times: u32) -> Self {
        Self {
            stretch: Some((every, times)),
            ..Self::new(packets, chunk, gap)
        }
    }
}

impl Source for BurstySource {
    fn poll(&mut self, now: u128) -> Polled {
        if self.remaining == 0 {
            let deadline = match self.next_burst {
                Some(deadline) => deadline,
                None => {
                    self.bursts += 1;
                    let times = match self.stretch {
                        Some((every, times)) if self.bursts % every == 0 => times,
                        _ => 1,
                    };
                    self.pending = self.chunk * times as usize;
                    let deadline = now + ns(self.gap * times);
                    self.next_burst = Some(deadline);
                    deadline
                }
            };
            if now < deadline {
                return Polled::Until(deadline);
            }
            self.next_burst = None;
            self.remaining = self.pending;
        }
        self.remaining -= 1;
        match self.packets.next() {
            Some(packet) => Polled::Packet(packet),
            None => Polled::End,
        }
    }
}

/// A source that delivers a run of packets and then stops delivering *without*
/// ending: a publisher killed behind a pipe that stays open, which is the case a
/// pacer otherwise stuffs straight through. Optionally it comes back.
struct StallingSource {
    packets: std::vec::IntoIter<Packet>,
    /// `None` means silent for good.
    silence: Option<Duration>,
    resume_at: Option<u128>,
    resumed: std::vec::IntoIter<Packet>,
}

impl StallingSource {
    /// Deliver `packets`, then go quiet forever.
    fn silent_after(packets: Vec<Packet>) -> Self {
        Self {
            packets: packets.into_iter(),
            silence: None,
            resume_at: None,
            resumed: Vec::new().into_iter(),
        }
    }

    /// Deliver `packets`, go quiet for `silence`, then deliver `resumed`.
    fn resuming(packets: Vec<Packet>, silence: Duration, resumed: Vec<Packet>) -> Self {
        Self {
            packets: packets.into_iter(),
            silence: Some(silence),
            resume_at: None,
            resumed: resumed.into_iter(),
        }
    }
}

impl Source for StallingSource {
    fn poll(&mut self, now: u128) -> Polled {
        if let Some(packet) = self.packets.next() {
            return Polled::Packet(packet);
        }
        let Some(silence) = self.silence else {
            return Polled::Never;
        };
        let deadline = *self.resume_at.get_or_insert(now + ns(silence));
        if now < deadline {
            return Polled::Until(deadline);
        }
        match self.resumed.next() {
            Some(packet) => Polled::Packet(packet),
            None => Polled::Never,
        }
    }
}

/// The weight that samples keep across `nanos` of source time.
fn decay(nanos: u64) -> u64 {
    let weight = (-(nanos as f64) / (RATE_WINDOW as f64)).exp();
    (weight * 18_446_744_073_709_551_616.0) as u64
}

fn fold(engine: &mut Engine, sample: Option<RateSample>) {
    if let Some(sample) = sample {
        engine.fold_rate(sample, decay(sample.nanos));
    }
}

/// A run, as it looked from outside.
struct Record {
    /// How it ended, unless it was still going when time was up.
    result: Option<Result<Stats, Error>>,
    /// Each datagram, when it went out, and the number it went out under: the
    /// framing offered, otherwise the count of sends.
    sent: Vec<(Duration, u16, Vec<u8>)>,
    /// Every health report.
    log: Vec<Health>,
}

impl Record {
    fn stats(&self) -> Stats {
        self.result.as_ref().expect("the run must finish").as_ref().expect("without an error").clone()
    }

    fn bytes(&self) -> Vec<u8> {
        self.sent.iter().flat_map(|(_, _, datagram)| datagram.iter().copied()).collect()
    }
}

/// Run the pacer until it finishes or `limit` has passed.
fn pace(config: Config, source: &mut dyn Source, limit: Duration) -> Record {
    let start: u128 = 1_000_000_000_000;
    let limit = start + ns(limit);
    let mut now = start;
    let mut record = Record { result: None, sent: Vec::new(), log: Vec::new() };

    let (config, warmup) = match config.bitrate {
        Bitrate::Constant(_) => (config, Vec::new()),
        Bitrate::Auto { headroom } => {
            let mut warmup = Warmup::new(&config, headroom, now);
            loop {
                let budget = warmup.wait_budget();
                match receive(source, &mut now, budget) {
                    Some(Polled::Packet(packet)) => {
                        if warmup.arrived(packet) {
                            break;
                        }
                    }
                    Some(_) => break,
                    None => match warmup.silent(now) {
                        Ok(true) => break,
                        Ok(false) => {}
                        Err(error) => {
                            record.result = Some(Err(error));
                            return record;
                        }
                    },
                }
                if now > limit {
                    return record;
                }
            }
            let (bitrate, packets) = warmup.resolve();
            (config.with_bitrate(Bitrate::Constant(bitrate)), packets)
        }
    };
    let mut engine = match Engine::new(&config, now) {
        Ok(engine) => engine,
        Err(error) => {
            record.result = Some(Err(error));
            return record;
        }
    };
    for packet in warmup {
        let sample = engine.arrived(packet, now).expect("warm-up");
        fold(&mut engine, sample);
    }

    let mut count: u16 = 0;
    while now <= limit {
        match engine.next(now) {
            Step::Done { health } => {
                record.log.extend(health);
                record.result = Some(Ok(engine.stats()));
                return record;
            }
            Step::Receive { budget } => match receive(source, &mut now, budget) {
                Some(Polled::Packet(packet)) => match engine.arrived(packet, now) {
                    Ok(sample) => fold(&mut engine, sample),
                    Err(error) => {
                        record.result = Some(Err(error));
                        return record;
                    }
                },
                Some(_) => engine.ended(now).expect("end of input"),
                None => {
                    let (health, outcome) = engine.silent(now);
                    record.log.extend(health);
                    if let Err(error) = outcome {
                        record.result = Some(Err(error));
                        return record;
                    }
                }
            },
            Step::Pace { due, listen } => {
                if now < due {
                    let polled = if listen { source.poll(now) } else { Polled::Never };
                    match polled {
                        Polled::Packet(packet) => match engine.arrived(packet, now) {
                            Ok(sample) => fold(&mut engine, sample),
                            Err(error) => {
                                record.result = Some(Err(error));
                                return record;
                            }
                        },
                        Polled::End => engine.ended(now).expect("end of input"),
                        Polled::Until(at) => now = at.min(due),
                        Polled::Never => now = due,
                    }
                    continue;
                }
                let (turn, health) = engine.woke(now);
                match turn {
                    Turn::Muted => {}
                    Turn::Send(framing) => {
                        let sequence = framing.map_or(count, |f: Framing| f.sequence);
                        count = count.wrapping_add(1);
                        record.sent.push((
                            lasting(now - start),
                            sequence,
                            engine.datagram().to_vec(),
                        ));
                    }
                    Turn::Failed(error) => {
                        record.log.extend(health);
                        record.result = Some(Err(error));
                        return record;
                    }
                }
                record.log.extend(health);
            }
        }
    }
    record
}

/// Wait for a packet or the end for at most `budget`; `None` if neither comes.
fn receive(source: &mut dyn Source, now: &mut u128, budget: u128) -> Option<Polled> {
    let deadline = *now + budget;
    loop {
        match source.poll(*now) {
            Polled::Until(at) if at <= deadline => *now = at,
            Polled::Until(_) | Polled::Never => {
                *now = deadline;
                return None;
            }
            polled => return Some(polled),
        }
    }
}

/// Long enough for any run that ends.
const FOREVER: Duration = Duration::from_secs(600);

/// Whether a packet carries a PCR, counting the adaptation-only packets the pacer
/// inserts itself (`read_pcr` below only reads content packets).
fn carries_pcr(packet: &[u8]) -> bool {
    matches!(packet[3] >> 4 & 0x03, 0b10 | 0b11) && packet[4] >= 7 && packet[5] & 0x10 != 0
}

/// A content packet on `MEDIA_PID`, optionally carrying a PCR.
fn packet(pcr_ticks: Option<u64>, cc: u8) -> Packet {
    let mut p = [0x00_u8; TS_PACKET_SIZE];
    p[0] = 0x47;
    p[1] = (MEDIA_PID >> 8) as u8 & 0x1f;
    p[2] = MEDIA_PID as u8;
    match pcr_ticks {
        Some(ticks) => {
            p[3] = 0x30 | (cc & 0x0f); // adaptation + payload
            p[4] = 7;
            p[5] = 0x10;
            write_pcr(&mut p[6..12], ticks);
        }
        None => p[3] = 0x10 | (cc & 0x0f),
    }
    Packet::from_slice(&p).unwrap()
}

fn write_pcr(target: &mut [u8], pcr_ticks: u64) {
    let base = (pcr_ticks / 300) & ((1_u64 << 33) - 1);
    let ext = pcr_ticks % 300;
    target[0] = (base >> 25) as u8;
    target[1] = (base >> 17) as u8;
    target[2] = (base >> 9) as u8;
    target[3] = (base >> 1) as u8;
    target[4] = ((base & 0x01) as u8) << 7 | 0x7e | ((ext >> 8) as u8 & 0x01);
    target[5] = ext as u8;
}

fn read_pcr(packet: &[u8]) -> Option<u64> {
    if packet[3] >> 4 & 0x03 != 0b11 || packet[4] < 7 || packet[5] & 0x10 == 0 {
        return None;
    }
    let pcr = &packet[6..12];
    let base = (u64::from(pcr[0]) << 25)
        | (u64::from(pcr[1]) << 17)
        | (u64::from(pcr[2]) << 9)
        | (u64::from(pcr[3]) << 1)
        | (u64::from(pcr[4]) >> 7);
    let ext = (u64::from(pcr[4] & 0x01) << 8) | u64::from(pcr[5]);
    Some(base * 300 + ext)
}

fn pid(packet: &[u8]) -> u16 {
    (u16::from(packet[1] & 0x1f) << 8) | u16::from(packet[2])
}

/// Build a ~5 Mb/s media stream of `count` packets, a PCR every `pcr_every`.
fn media_stream(count: usize, media_rate_bps: u64, pcr_every: usize) -> Vec<Packet> {
    let ticks_per_packet = (TS_PACKET_SIZE as u64 * 8 * 27_000_000) / media_rate_bps;
    (0..count)
        .map(|i| {
            let cc = (i % 16) as u8;
            if i % pcr_every == 0 {
                packet(Some(i as u64 * ticks_per_packet), cc)
            } else {
                packet(None, cc)
            }
        })
        .collect()
}

#[test]
fn produces_constant_bitrate_output_with_null_stuffing() {
    let input = media_stream(700, 5_000_000, 7);
    let content_in = input.len() as u64;

    let config = Config::new(MUX_RATE)
        .with_latency(ns(Duration::from_millis(50)))
        .with_pcr_mode(PcrMode::Regenerate);
    let run = pace(config, &mut IterSource::new(input), FOREVER);
    let stats = run.stats();

    // Every content packet is released (none dropped): duration is preserved.
    assert_eq!(stats.content_packets, content_in, "all content forwarded");
    assert_eq!(stats.dropped_packets, 0, "no drops below max_latency");
    // Mux rate (10 Mb/s) is double the media rate (5 Mb/s), so ~half is null.
    assert!(stats.null_packets > 0, "below-rate input must be null-stuffed");
    assert!(
        stats.output_packets >= content_in,
        "output ({}) carries content plus stuffing",
        stats.output_packets
    );

    let bytes = run.bytes();
    assert_eq!(bytes.len() % TS_PACKET_SIZE, 0, "whole packets only");

    // Structural: every emitted packet is a valid 188-byte packet.
    let mut content = 0u64;
    let mut nulls = 0u64;
    let mut pcrs: Vec<(u64, u64)> = Vec::new();
    for (index, chunk) in bytes.chunks_exact(TS_PACKET_SIZE).enumerate() {
        assert_eq!(chunk[0], 0x47, "sync byte at packet {index}");
        if pid(chunk) == NULL_PID {
            nulls += 1;
        } else {
            content += 1;
            if let Some(p) = read_pcr(chunk) {
                pcrs.push((index as u64, p));
            }
        }
    }
    assert_eq!(content, content_in, "content count matches input");
    assert_eq!(nulls, stats.null_packets);

    // Regenerated PCR is byte-locked: the PCR delta equals the output byte
    // distance clocked at the mux rate (within one tick of integer rounding).
    assert!(pcrs.len() >= 3, "expected several PCRs, got {}", pcrs.len());
    for pair in pcrs.windows(2) {
        let (i0, p0) = pair[0];
        let (i1, p1) = pair[1];
        let expected = ((i1 - i0) as u128 * TS_PACKET_SIZE as u128 * 8 * 27_000_000 / MUX_RATE as u128) as u64;
        let actual = p1 - p0;
        let diff = actual.abs_diff(expected);
        assert!(diff <= 2, "PCR not byte-locked: got {actual}, expected ~{expected}");
    }
}

#[test]
fn preserve_mode_keeps_source_pcr_values() {
    let input = media_stream(200, 5_000_000, 7);
    let expected_first_pcr = input.iter().find_map(|p| p.pcr());

    let config = Config::new(MUX_RATE)
        .with_latency(ns(Duration::from_millis(20)))
        .with_pcr_mode(PcrMode::Preserve);
    let run = pace(config, &mut IterSource::new(input), FOREVER);

    let bytes = run.bytes();
    let first_pcr = bytes.chunks_exact(TS_PACKET_SIZE).find_map(read_pcr);
    assert_eq!(
        first_pcr, expected_first_pcr,
        "preserve keeps source PCR values verbatim"
    );
}

#[test]
fn auto_rate_matches_source_content_rate() {
    // A steady 5 Mb/s media stream. Auto should lock the output near the content
    // rate plus the default 15% headroom (~5.75 Mb/s), so only a little stuffing.
    let input = media_stream(700, 5_000_000, 7);
    let content_in = input.len() as u64;

    let config = Config::auto().with_latency(ns(Duration::from_millis(50)));
    let run = pace(config, &mut IterSource::new(input), FOREVER);
    let stats = run.stats();

    assert_eq!(stats.content_packets, content_in, "all content forwarded");
    assert_eq!(stats.dropped_packets, 0, "self-tuned rate must not overflow");
    // Near the content rate: far less stuffing than the 2x-overprovisioned
    // explicit-rate test, and nowhere near the 4 Mb/s no-PCR fallback.
    let ratio = stats.null_ratio();
    let ratio = ratio.numerator as f64 / ratio.denominator as f64;
    assert!(
        (0.02..0.30).contains(&ratio),
        "auto rate should track content + headroom, got {:.1}% stuffing",
        ratio * 100.0
    );
}

#[test]
fn stalled_source_mutes_the_carrier() {
    // 700 packets arrive, then the source goes quiet without ever ending. Left to
    // itself the pacer would hold a byte-perfect carrier with no programme in it
    // for as long as it ran, which is indistinguishable downstream from health.
    let config = Config::new(MUX_RATE)
        .with_latency(ns(Duration::from_millis(50)))
        .with_stall_timeout(Some(ns(Duration::from_millis(500))));

    // Muting keeps the run alive, so it is bounded rather than awaited.
    let run = pace(
        config,
        &mut StallingSource::silent_after(media_stream(700, 5_000_000, 7)),
        Duration::from_secs(5),
    );
    assert!(run.result.is_none(), "a muted pacer stays alive instead of returning");

    let last = run.sent.last().expect("the live period produced output").0;
    assert!(
        (Duration::from_millis(450)..Duration::from_millis(600)).contains(&last),
        "carrier must stop one stall timeout after the source went quiet, not at {last:?}"
    );
    for (at, _, datagram) in &run.sent {
        for packet in datagram.chunks_exact(TS_PACKET_SIZE) {
            assert!(
                !carries_pcr(packet) || *at < Duration::from_millis(600),
                "no PCR may be minted after the source is declared gone"
            );
        }
    }

    let final_health = run.log.last().expect("health is reported");
    assert_eq!(final_health.source, SourceState::Stalled);
    assert_eq!(final_health.stats.stalls, 1);
    assert!(final_health.stats.muted_packets > 0, "the muted gap is counted");
    assert!(
        final_health.stats.content_gap_max_ms >= 4_000,
        "the gap is measured as it grows"
    );
    assert!(
        run.log.iter().any(|health| health.source == SourceState::Live),
        "the live period is reported too"
    );
}

#[test]
fn the_first_stall_report_carries_the_stall_it_announces() {
    // The buffer can run dry *inside* an output slot, so the state read after
    // emitting differs from the one the slot acted on. Reporting that later
    // reading would announce a stall against counters taken before it: an operator
    // watching the alarm would read "stall #0, 0 ms" for a source gone for seconds.
    let config = Config::new(MUX_RATE)
        .with_latency(ns(Duration::from_millis(50)))
        .with_stall_timeout(Some(ns(Duration::from_millis(500))));

    let run = pace(
        config,
        &mut StallingSource::silent_after(media_stream(700, 5_000_000, 7)),
        Duration::from_secs(3),
    );

    let first = run
        .log
        .iter()
        .find(|health| health.source == SourceState::Stalled)
        .expect("the stall is reported");
    assert_eq!(first.stats.stalls, 1, "the report names the stall it is announcing");
    assert!(
        first.stats.content_gap_max_ms >= 500,
        "and the silence that caused it, not {} ms",
        first.stats.content_gap_max_ms
    );
}

#[test]
fn stall_detection_can_be_disabled() {
    // The inverse of the test above, and the escape hatch for a plant that wants
    // no timeout, so silence is never a fault.
    let config = Config::new(MUX_RATE)
        .with_latency(ns(Duration::from_millis(50)))
        .with_stall_timeout(None);

    let run = pace(
        config,
        &mut StallingSource::silent_after(media_stream(700, 5_000_000, 7)),
        Duration::from_secs(3),
    );
    assert!(run.result.is_none());

    let last = run.sent.last().expect("output was produced").0;
    assert!(
        last > Duration::from_millis(2_500),
        "no timeout means the carrier never stops"
    );
    assert!(
        run.sent
            .iter()
            .filter(|(at, _, _)| *at > Duration::from_millis(600))
            .flat_map(|(_, _, datagram)| datagram.chunks_exact(TS_PACKET_SIZE))
            .any(carries_pcr),
        "with detection off the pacer keeps holding the repetition limit"
    );
}

#[test]
fn stalled_source_fails_under_the_fail_policy() {
    let config = Config::new(MUX_RATE)
        .with_latency(ns(Duration::from_millis(50)))
        .with_stall_timeout(Some(ns(Duration::from_millis(500))))
        .with_stall_policy(StallPolicy::Fail);

    let run = pace(
        config,
        &mut StallingSource::silent_after(media_stream(700, 5_000_000, 7)),
        FOREVER,
    );

    match run.result.expect("the run ends") {
        Err(Error::SourceStalled { silent_for }) => {
            assert!(
                silent_for >= ns(Duration::from_millis(500)),
                "reported silence {silent_for:?}"
            );
        }
        other => panic!("expected SourceStalled, got {other:?}"),
    }
}

#[test]
fn carrier_resumes_when_content_returns() {
    // One continuous stream split across a 2 s outage, so the returning packets
    // carry a PCR timeline continuous with the first half.
    let stream = media_stream(1400, 5_000_000, 7);
    let (first, second) = stream.split_at(700);
    let config = Config::new(MUX_RATE)
        .with_latency(ns(Duration::from_millis(50)))
        .with_stall_timeout(Some(ns(Duration::from_millis(500))));

    let run = pace(
        config,
        &mut StallingSource::resuming(first.to_vec(), Duration::from_secs(2), second.to_vec()),
        Duration::from_secs(6),
    );
    assert!(run.result.is_none());

    // The carrier has exactly one hole in it before the source goes for good, and it
    // is the outage.
    let gaps: Vec<Duration> = run
        .sent
        .windows(2)
        .map(|pair| pair[1].0 - pair[0].0)
        .filter(|gap| *gap > Duration::from_millis(10))
        .collect();
    assert_eq!(gaps.len(), 1, "expected a single carrier gap, got {gaps:?}");
    assert!(
        (Duration::from_millis(1_400)..Duration::from_millis(1_600)).contains(&gaps[0]),
        "the gap is the outage less the stall grace already spent: {:?}",
        gaps[0]
    );

    let content: usize = run
        .sent
        .iter()
        .flat_map(|(_, _, datagram)| datagram.chunks_exact(TS_PACKET_SIZE))
        .filter(|packet| pid(packet) == MEDIA_PID && !carries_pcr(packet))
        .count();
    assert!(
        content > 700,
        "content resumed after the outage, only {content} packets"
    );

    let states: Vec<SourceState> = run.log.iter().map(|health| health.source).collect();
    let stalled = states.iter().position(|state| *state == SourceState::Stalled);
    let recovered = states.iter().rposition(|state| *state == SourceState::Live);
    assert!(
        matches!((stalled, recovered), (Some(a), Some(b)) if b > a),
        "health must report the stall and then the recovery: {states:?}"
    );
}

#[test]
fn continue_policy_holds_the_carrier_but_stops_claiming_a_clock() {
    // Some plants need the carrier up regardless. It still must not mint the PCR
    // that makes a programme-free stream look conformant.
    let config = Config::new(MUX_RATE)
        .with_latency(ns(Duration::from_millis(50)))
        .with_stall_timeout(Some(ns(Duration::from_millis(500))))
        .with_stall_policy(StallPolicy::Continue);

    let run = pace(
        config,
        &mut StallingSource::silent_after(media_stream(700, 5_000_000, 7)),
        Duration::from_secs(3),
    );
    assert!(run.result.is_none());

    let last = run.sent.last().expect("output was produced").0;
    assert!(
        last > Duration::from_millis(2_500),
        "the carrier stays up under Continue"
    );
    for (at, _, datagram) in &run.sent {
        if *at < Duration::from_millis(600) {
            continue;
        }
        for packet in datagram.chunks_exact(TS_PACKET_SIZE) {
            assert_eq!(pid(packet), NULL_PID, "only stuffing remains");
            assert!(!carries_pcr(packet), "a programme-free carrier claims no clock");
        }
    }
}

/// Pace `input` through the engine down a path that delivers it in bursts, and
/// return each datagram with the RTP sequence number it went out under.
///
/// The bursts average out to the media rate - 200 packets of 5 Mb/s content is
/// 60 ms of programme. A path that sustained more than that would not be a path;
/// it would be a leg permanently behind the stream, which is a different test.
fn leg(config: Config, input: Vec<Packet>) -> Vec<(u16, Vec<u8>)> {
    let run = pace(
        config,
        &mut BurstySource::new(input, 200, Duration::from_millis(60)),
        FOREVER,
    );
    run.stats();
    run.sent.into_iter().map(|(_, sequence, datagram)| (sequence, datagram)).collect()
}

#[test]
fn a_stream_clocked_leg_joins_the_transport_its_partner_is_sending() {
    // One leg has been running from the start; the other picks the stream up
    // part-way, as a leg restored after maintenance does. Under stream clocking the
    // newcomer emits the partner's bytes under the partner's numbering without the
    // two having been co-started, or having exchanged anything at all.
    //
    // Emit-time jitter is the other half of the property, and cannot be shown
    // here: the virtual clock fires every timer exactly on time.
    let input = media_stream(1_200, 5_000_000, 20);
    let config = Config::new(MUX_RATE)
        .with_latency(ns(Duration::from_millis(200)))
        .with_clocking(Clocking::Stream);
    assert!(config.validate().is_ok());

    let running = leg(config, input.clone());
    // Cut on a PCR, since that is where a run - and so a subscription - begins.
    let joined = leg(config, input[400..].to_vec());

    assert!(running.len() > 200, "the leg emitted almost nothing");
    assert!(joined.len() > 100, "the late leg emitted almost nothing");
    assert!(
        joined.len() < running.len(),
        "the late leg cannot have emitted the whole stream"
    );

    let running: HashMap<_, _> = running.into_iter().collect();
    // The datagram the leg joined inside is partial: it is short the content its
    // partner already had when it arrived. Everything after it must match.
    for (sequence, datagram) in joined.into_iter().skip(1) {
        match running.get(&sequence) {
            Some(theirs) => assert_eq!(&datagram, theirs, "sequence {sequence} differs between the legs"),
            None => panic!("the late leg sent sequence {sequence}, which its partner never used"),
        }
    }
}

// --- grooming either data plane ------------------------------------------------

/// The media rate of the two shapes below, and the packets one second of it takes.
///
/// Set 15 % under the mux rate, which is what a groomed feed looks like (and the
/// headroom `Config::auto` picks). The margin matters: the buffer bound is a
/// duration at the *mux* rate, so a feed running at half the mux rate gets twice
/// as much buffer as the figure suggests, and a comfortable ratio would hide the
/// overflow a real segmented egress hits.
const MEDIA_RATE: u64 = 8_500_000;
const MEDIA_PPS: usize = (MEDIA_RATE / (TS_PACKET_SIZE as u64 * 8)) as usize;
/// One output datagram, and so the tail of nulls a stream whose length is not a
/// multiple of it ends on.
const DATAGRAM: u64 = 7;

/// How long `packets` of media lasts, and so the silence a rate-matched delivery
/// of that many is followed by.
///
/// Both shapes below are built from this, because a delivery that is not
/// rate-matched is not a burst pattern - it is a feed running at the wrong rate,
/// which starves or overflows whatever the buffer does.
fn media_time(packets: usize) -> Duration {
    Duration::from_secs_f64(packets as f64 / MEDIA_PPS as f64)
}

/// A segmented-HTTP egress: two-second segments fetched at line rate, with every
/// fourth cycle collecting two at once after twice the wait: mostly 2 s gaps,
/// occasional 4 s ones, and a median burst larger than one segment because of them.
fn segmented(segments: usize) -> BurstySource {
    let per_segment = 2 * MEDIA_PPS;
    BurstySource::uneven(
        media_stream(segments * per_segment, MEDIA_RATE, 20),
        per_segment,
        media_time(per_segment),
        4,
        2,
    )
}

/// An object-transport egress: ~12 kB bursts a few milliseconds apart, with an
/// occasional silence of ~140 ms. Two orders of magnitude off the shape above in
/// both dimensions.
fn objects(seconds: usize) -> BurstySource {
    let per_burst = 66;
    let bursts = seconds * MEDIA_PPS / per_burst;
    BurstySource::uneven(
        media_stream(bursts * per_burst, MEDIA_RATE, 20),
        per_burst,
        media_time(per_burst),
        12,
        12,
    )
}

/// Pace a source to its end and return the stats.
fn groom(config: Config, mut source: BurstySource) -> Stats {
    let run = pace(config, &mut source, FOREVER);
    assert!(run.result.is_some(), "the run must finish rather than mute its own tail");
    run.stats()
}

#[test]
fn a_segmented_source_is_groomed_without_dropping_or_muting() {
    // The point of the whole exercise. Fed a feed that arrives a segment at a time,
    // with no flag saying so, the pacer must not drop programme out of it, underrun
    // between segments, or read an ordinary inter-segment gap as a dead source.
    let stats = groom(Config::new(MUX_RATE), segmented(10));

    assert_eq!(stats.dropped_packets, 0, "dropped programme from a healthy feed");
    assert_eq!(stats.stalls, 0, "read an inter-segment gap as a dead source");
    assert_eq!(stats.muted_packets, 0, "and muted the carrier for it");
    assert_eq!(
        stats.content_packets, 10 * 2 * MEDIA_PPS as u64,
        "every content packet must reach the wire"
    );
    // The last datagram is padded out, since the stream does not end on a datagram
    // boundary. Anything past that would be a real starve between segments.
    assert!(
        stats.underruns < DATAGRAM,
        "starved between segments: {} underruns",
        stats.underruns
    );

    // And it sized itself from the arrival pattern rather than from a default.
    assert!(
        (1_500..4_500).contains(&stats.arrival_lead_ms),
        "expected a lead of one or two segments, got {} ms",
        stats.arrival_lead_ms
    );
    assert!(
        stats.latency_target_ms >= 4_000,
        "a {} ms cushion cannot ride out the 4 s gap this feed has",
        stats.latency_target_ms
    );
    assert!(
        stats.burst_max_packets >= 2 * MEDIA_PPS as u64,
        "the reported burst {} is smaller than the segment delivered",
        stats.burst_max_packets
    );
}

#[test]
fn the_old_defaults_show_why_that_needed_fixing() {
    // The control arm: the same feed through the depths a groomer tuned for an
    // object transport uses. All three failures are visible at once, which is why
    // they are not one mistuned timeout.
    let pinned = Config::new(MUX_RATE)
        .with_latency(ns(Duration::from_millis(200)))
        .with_max_latency(ns(Duration::from_millis(2_000)))
        .with_stall_timeout(Some(ns(Duration::from_secs(1))));
    let stats = groom(pinned, segmented(10));

    assert!(
        stats.dropped_packets > 0,
        "a 2 s bound cannot hold a 2 s segment plus a cushion"
    );
    assert!(stats.stalls > 0, "a 1 s timeout fires on every inter-segment gap");
    assert!(stats.muted_packets > 0, "and mutes the carrier for most of every period");
}

#[test]
fn an_object_source_pays_nothing_for_it() {
    // Adaptive sizing is measured against the arrival pattern rather than switched on
    // by transport, so the object plane has to come out where it always does: a
    // cushion in the hundreds of milliseconds, not the seconds a segmented feed needs.
    let stats = groom(Config::new(MUX_RATE), objects(20));

    assert!(
        stats.latency_target_ms < 500,
        "an object feed's cushion inflated to {} ms (lead {} ms)",
        stats.latency_target_ms,
        stats.arrival_lead_ms
    );
    assert_eq!(stats.dropped_packets, 0, "no drops");
    assert_eq!(stats.stalls, 0, "no stalls");
    assert_eq!(stats.muted_packets, 0, "no muting");
    assert!(stats.underruns < DATAGRAM, "no starve past the padded final datagram");
    // The largest burst is the catch-up delivery after the ~140 ms silence, not the
    // typical one - and it is still a small fraction of a segment, which is the
    // whole reason the two planes need different depths.
    assert!(
        stats.burst_max_packets < MEDIA_PPS as u64 / 2,
        "expected bursts far short of a segment, got {} packets",
        stats.burst_max_packets
    );
}

#[test]
fn a_stream_clocked_pair_still_agrees_on_a_segmented_feed() {
    // Stream clocking requires pinned depths precisely because an adaptive cushion
    // is measured from one leg's own arrival window. Pinned from the segment
    // duration, the pair property survives the burst shape: what a leg emits is a
    // function of the stream, so two of them agree without sharing a process.
    let input = media_stream(6 * 2 * MEDIA_PPS, MEDIA_RATE, 20);
    let config = Config::new(MUX_RATE)
        .with_segment_duration(ns(Duration::from_secs(2)))
        .with_clocking(Clocking::Stream);
    config.validate().expect("pinned depths are what stream clocking needs");

    let one = segmented_leg(config, input.clone());
    let two = segmented_leg(config, input);
    assert!(one.len() > 100, "the leg emitted almost nothing");
    assert_eq!(one, two, "two legs fed the same stream must emit the same datagrams");
}

/// One stream-clocked leg of a pair, fed a segmented arrival pattern.
fn segmented_leg(config: Config, input: Vec<Packet>) -> Vec<(u16, Vec<u8>)> {
    let mut source = BurstySource::uneven(input, 2 * MEDIA_PPS, media_time(2 * MEDIA_PPS), 4, 2);
    let run = pace(config, &mut source, FOREVER);
    run.stats();
    run.sent.into_iter().map(|(_, sequence, datagram)| (sequence, datagram)).collect()
}

#[test]
fn an_adaptive_cushion_is_refused_where_two_legs_must_agree() {
    let config = Config::new(MUX_RATE).with_clocking(Clocking::Stream);
    assert!(
        config.validate().is_err(),
        "two legs sizing their own cushions would hold different depths"
    );
}

#[test]
fn a_cushion_deeper_than_the_buffer_is_refused() {
    // A priming target the buffer cannot physically hold: the pacer would drop the
    // input to make room for itself, for ever, and report nothing unusual.
    let config = Config::new(MUX_RATE)
        .with_max_latency(ns(Duration::from_millis(500)))
        .with_latency(ns(Duration::from_secs(2)));
    assert!(config.validate().is_err(), "latency past max_latency must be rejected");
}

#[test]
fn a_source_that_ends_before_it_primes_is_still_paced_out() {
    // An adaptive start holds output back until it holds a cushion. A short input
    // never gets there, and discarding it for being short would be worse than any
    // burst it failed to absorb.
    let input = media_stream(700, MEDIA_RATE, 7);
    let expected = input.len() as u64;
    let stats = groom(Config::new(MUX_RATE), BurstySource::new(input, 700, Duration::from_secs(1)));
    assert_eq!(stats.content_packets, expected, "the whole short input reaches the wire");
}

#[test]
fn empty_source_produces_no_output() {
    let run = pace(Config::new(MUX_RATE), &mut IterSource::new(Vec::new()), FOREVER);
    assert_eq!(run.stats().output_packets, 0);
    assert!(run.sent.is_empty());
}

#[test]
fn a_refused_configuration_never_starts() {
    let config = Config::new(MUX_RATE).with_clocking(Clocking::Stream);
    let run = pace(config, &mut IterSource::new(media_stream(10, 5_000_000, 7)), FOREVER);
    assert!(matches!(run.result, Some(Err(Error::Config(_)))));
    assert!(run.sent.is_empty());
}

#[test]
fn a_source_that_never_speaks_fails_under_the_fail_policy() {
    let config = Config::new(MUX_RATE)
        .with_stall_timeout(Some(ns(Duration::from_millis(500))))
        .with_stall_policy(StallPolicy::Fail);
    let run = pace(config, &mut StallingSource::silent_after(Vec::new()), FOREVER);
    assert!(matches!(
        run.result,
        Some(Err(Error::SourceStalled { silent_for: 500_000_000 }))
    ));
    // The silence is a reported state before it is an error.
    assert_eq!(run.log.len(), 1);
    assert_eq!(run.log[0].source, SourceState::Priming);
}

#[test]
fn a_silent_warm_up_fails_under_the_fail_policy_and_waits_otherwise() {
    let hard = Config::auto()
        .with_stall_timeout(Some(ns(Duration::from_millis(500))))
        .with_stall_policy(StallPolicy::Fail);
    let run = pace(hard, &mut StallingSource::silent_after(Vec::new()), FOREVER);
    assert!(matches!(run.result, Some(Err(Error::SourceStalled { .. }))));

    let soft = Config::auto().with_stall_timeout(Some(ns(Duration::from_millis(500))));
    let run = pace(soft, &mut StallingSource::silent_after(Vec::new()), Duration::from_secs(5));
    assert!(run.result.is_none(), "one packet is not a measurement, so it keeps waiting");
}

#[test]
fn a_warm_up_locks_the_measured_rate_plus_headroom() {
    let config = Config::auto();
    let Bitrate::Auto { headroom } = config.bitrate else {
        panic!("auto");
    };
    // Nothing to measure: the fallback as it stands.
    let empty = Warmup::new(&config, headroom, 0);
    assert_eq!(empty.resolve().0, 4_000_000);
    let mut clockless = Warmup::new(&config, headroom, 0);
    for _ in 0..3 {
        assert!(!clockless.arrived(packet(None, 0)));
    }
    let (bitrate, packets) = clockless.resolve();
    assert_eq!(bitrate, 4_000_000);
    assert_eq!(packets.len(), 3);
    // Ten packets over forty milliseconds: 376 kb/s, and 15% on top.
    let mut warmup = Warmup::new(&config, headroom, 0);
    assert!(!warmup.arrived(packet(Some(0), 0)));
    for _ in 0..8 {
        assert!(!warmup.arrived(packet(None, 0)));
    }
    assert!(!warmup.arrived(packet(Some(27_000_000 / 25), 0)));
    assert_eq!(warmup.silent(7).ok(), Some(true), "two PCRs are a measurable window");
    let (bitrate, packets) = warmup.resolve();
    assert_eq!(bitrate, 432_400);
    assert_eq!(packets.len(), 10);
}

#[test]
fn a_warm_up_ends_at_eight_pcrs() {
    let config = Config::auto();
    let Bitrate::Auto { headroom } = config.bitrate else {
        panic!("auto");
    };
    let mut warmup = Warmup::new(&config, headroom, 0);
    for i in 0..8 {
        assert_eq!(warmup.arrived(packet(Some(i * 27_000), 0)), i == 7);
    }
}

#[test]
fn health_is_reported_on_change_and_on_a_slow_heartbeat() {
    let config = Config::new(MUX_RATE)
        .with_latency(ns(Duration::from_millis(50)))
        .with_stall_timeout(Some(ns(Duration::from_millis(500))));
    let run = pace(
        config,
        &mut StallingSource::silent_after(media_stream(700, 5_000_000, 7)),
        Duration::from_secs(5),
    );
    let states: Vec<SourceState> = run.log.iter().map(|health| health.source).collect();
    let first_stall = states.iter().position(|s| *s == SourceState::Stalled).unwrap();
    assert!(states[..first_stall].contains(&SourceState::Live));
    assert!(states[..first_stall].contains(&SourceState::Starved));
    // Four and a half seconds of stall at four reports a second.
    let stalls = states.len() - first_stall;
    assert!((16..=20).contains(&stalls), "{stalls} reports");
}

#[test]
fn stray_pcr_positions_end_the_run_under_the_fail_policy() {
    // Clusters of PCRs a full interval apart, and then the media for all of them.
    let mut input = Vec::new();
    for cluster in 0..8_u64 {
        for step in 0..64_u64 {
            input.push(packet(Some((cluster * 64 + step) * 270_000), 0));
        }
        for _ in 0..64 * 60 {
            input.push(packet(None, 0));
        }
    }
    let config = Config::new(MUX_RATE)
        .with_latency(ns(Duration::from_millis(50)))
        .with_max_latency(ns(Duration::from_millis(100)))
        .with_clocking(Clocking::Stream);
    let lenient = pace(config, &mut IterSource::new(input.clone()), FOREVER);
    assert!(lenient.stats().pcr_position_overruns > 0, "counted, and carried on");

    let strict = config.with_pcr_position_policy(PcrPositionPolicy::Fail);
    let run = pace(strict, &mut IterSource::new(input), FOREVER);
    match run.result {
        Some(Err(Error::SourcePcrPosition { displacement_packets, overruns })) => {
            assert!(displacement_packets > 665, "past the 100 ms the buffer may hold");
            assert!(overruns > 0);
        }
        other => panic!("expected SourcePcrPosition, got {other:?}"),
    }
}

#[test]
fn a_pinned_leg_that_has_placed_nothing_is_not_started_by_silence() {
    let config = Config::new(MUX_RATE)
        .with_latency(ns(Duration::from_millis(50)))
        .with_clocking(Clocking::Stream);
    let mut engine = Engine::new(&config, 0).expect("a good configuration");
    engine.arrived(packet(Some(0), 0), 0).expect("a packet");
    for tick in 1..20 {
        let (_, outcome) = engine.silent(tick * 250_000_000);
        assert!(outcome.is_ok());
        assert!(
            matches!(engine.next(tick * 250_000_000), Step::Receive { .. }),
            "there is nothing to pace yet"
        );
    }
}

#[test]
fn a_datagram_is_numbered_where_it_is_sent() {
    // A backlog moves the leg to the live edge in the very turn that sends: the number
    // offered is that of the slot the datagram fills, not of the one left behind.
    let config = Config::new(MUX_RATE)
        .with_latency(ns(Duration::from_millis(50)))
        .with_max_latency(ns(Duration::from_millis(200)))
        .with_packets_per_datagram(1)
        .with_clocking(Clocking::Stream);
    let map = SlotMap::new(MUX_RATE);
    let mut engine = Engine::new(&config, 0).expect("a good configuration");
    let mut now = 0;
    let mut first = None;
    let mut pcrs = 0;
    for run in 0..400_u64 {
        // Twenty runs as they come, and then all the rest at once.
        now = if run < 20 { u128::from(run) * 5_000_000 } else { 150_000_000 };
        engine.arrived(packet(Some(run * 135_000), 0), now).expect("a packet");
        engine.arrived(packet(None, 0), now).expect("a packet");
        while let Step::Pace { due, .. } = engine.next(now) {
            if due > now || run >= 20 {
                break;
            }
            let (Turn::Send(Some(framing)), _) = engine.woke(due) else {
                panic!("a datagram under a number");
            };
            first = first.or(Some(framing.slot));
        }
    }
    for turn in 0..1_000 {
        let Step::Pace { due, .. } = engine.next(now) else {
            break;
        };
        now = due.max(now);
        let (Turn::Send(Some(framing)), _) = engine.woke(now) else {
            panic!("a datagram under a number");
        };
        if turn == 0 {
            assert!(framing.slot > first.unwrap_or(0) + 1_000, "still behind the backlog");
        }
        if let Some(pcr) = read_pcr(engine.datagram()) {
            assert_eq!(pcr, map.pcr_of_slot(framing.slot), "slot {}", framing.slot);
            pcrs += 1;
        }
    }
    assert!(pcrs > 3, "saw {pcrs} PCRs");
    assert_eq!(engine.stats().resyncs, 1);
}

#[test]
fn a_whole_run_sends_what_arrived_in_order() {
    // Stuffing is taken out and put in, and nothing else changes while source PCRs are
    // kept: not the bytes, not the order, not the number.
    let mut input = Vec::new();
    let mut content = Vec::new();
    for (i, packet) in media_stream(600, 4_000_000, 11).into_iter().enumerate() {
        content.extend_from_slice(packet.as_bytes());
        input.push(packet);
        if i % 3 == 0 {
            let mut null = [0xff_u8; TS_PACKET_SIZE];
            null[..4].copy_from_slice(&[0x47, 0x1f, 0xff, 0x10]);
            input.push(Packet::from_slice(&null).unwrap());
        }
    }
    let config = Config::new(MUX_RATE)
        .with_latency(ns(Duration::from_millis(50)))
        .with_max_latency(ns(Duration::from_secs(10)))
        .with_pcr_mode(PcrMode::Preserve);
    let run = pace(config, &mut IterSource::new(input), FOREVER);
    let sent: Vec<u8> = run
        .bytes()
        .chunks_exact(TS_PACKET_SIZE)
        .filter(|p| pid(p) != NULL_PID)
        .flatten()
        .copied()
        .collect();
    assert_eq!(sent, content);
    assert_eq!(run.stats().content_packets, 600);
    assert_eq!(run.stats().input_nulls_stripped, 200);
}

#[test]
fn a_whole_run_carries_what_arrived_with_its_clock_regenerated() {
    // PCRs far apart, so that some are inserted; each packet of content goes out once, in
    // order, and equal outside the PCR field and the flags octet.
    let input = media_stream(900, 4_000_000, 300);
    let config = Config::new(MUX_RATE)
        .with_latency(ns(Duration::from_millis(50)))
        .with_max_latency(ns(Duration::from_secs(10)));
    let run = pace(config, &mut IterSource::new(input.clone()), FOREVER);
    let bytes = run.bytes();
    // A packet without payload is one that was put in.
    let sent: Vec<&[u8]> = bytes
        .chunks_exact(TS_PACKET_SIZE)
        .filter(|p| pid(p) != NULL_PID && p[3] & 0x10 != 0)
        .collect();
    assert_eq!(sent.len(), input.len());
    for (out, came) in sent.iter().zip(&input) {
        let came = came.as_bytes();
        assert_eq!(out[..5], came[..5]);
        assert_eq!(out[12..], came[12..]);
    }
    let stats = run.stats();
    assert_eq!(stats.content_packets, 900);
    assert!(stats.pcr_inserted > 0);
    assert_eq!(
        bytes.len(),
        (stats.content_packets + stats.null_packets + stats.pcr_inserted) as usize * TS_PACKET_SIZE
    );
}
