//! The pacing engine: what a driver does next, and what comes of it.
//!
//! Running a pacer is a loop of waiting and deciding. The waiting - on a clock, on a
//! source, on a sink - belongs to whoever drives it; the deciding is here. The driver
//! asks [`Engine::next`] what to wait for, and tells the engine what happened:
//! a packet [`arrived`](Engine::arrived), the input [`ended`](Engine::ended), a wait
//! for it came back [`silent`](Engine::silent), or the output clock came due and the
//! driver [`woke`](Engine::woke). A rate left to be measured is settled first, by a
//! [`Warmup`].

use vstd::prelude::*;

use crate::arith::{cap, capped, elapsed, in_millis, larger, product, Nanos, Ratio};
use crate::arrival::DELIVERY_GAP;
use crate::config::{Config, PcrPositionPolicy, StallPolicy, DEFAULT_AUTO_FALLBACK};
use crate::error::{Error, Result};
use crate::estimate::{content_bitrate, estimate_content_bitrate};
use crate::laws::law_catching_up_is_done_once;
use crate::media_clock::RateSample;
use crate::observe::{Health, SourceState};
use crate::output::Framing;
use crate::packet::Packet;
use crate::pcr::pcr_of;
use crate::schedule::State;
use crate::scheduler::Scheduler;
use crate::stats::Stats;

verus! {

/// PCR samples to observe before locking a measured rate. More samples mean a
/// longer warm-up but a steadier rate estimate.
pub const AUTO_WARMUP_PCRS: usize = 8;

/// Safety cap on the warm-up: resolve from whatever there is rather than
/// buffering unboundedly if the source has no (or very sparse) PCR.
pub const AUTO_WARMUP_MAX_PACKETS: usize = 20_000;

/// How often health is reported in the absence of a state transition, so a
/// caller polling counters sees fresh ones without a report per datagram: 250 ms.
pub const HEALTH_INTERVAL: Nanos = 250_000_000;

/// Bound on a wait for input when no stall timeout is configured, so the engine
/// still wakes up to report health rather than blocking indefinitely: 1 s.
pub const IDLE_POLL: Nanos = 1_000_000_000;

/// What a driver waits for next.
#[derive(Clone, Copy, Debug)]
pub enum Step {
    /// The output clock has not started: wait for a packet, but no longer than
    /// `budget`, so that a source that never speaks is a reported state rather than
    /// a silent hang.
    Receive {
        /// The longest to wait.
        budget: Nanos,
    },
    /// The output clock is running: sleep until `due`. While `listen`, take a
    /// packet in the meantime if one comes - the byte clock wins where both are
    /// ready, so ingest can't starve emission.
    Pace {
        /// When the next datagram is due.
        due: Nanos,
        /// Whether the input is still open.
        listen: bool,
    },
    /// The input has ended and everything has gone out.
    Done {
        /// A last report, if there was an output to report on.
        health: Option<Health>,
    },
}

/// What comes of a datagram's due time.
#[derive(Clone, Copy, Debug)]
pub enum Turn {
    /// Nothing goes out: the source is gone, and the carrier stops to show it.
    Muted,
    /// The assembled datagram goes out, numbered from the stream if there is a
    /// framing for it.
    Send(Option<Framing>),
    /// The run ends.
    Failed(Error),
}

/// A run in progress.
#[verifier::ext_equal]
pub struct Run {
    /// What happens once the input is stalled.
    pub stall_policy: StallPolicy,
    /// What happens once the source's PCR positions have strayed too far.
    pub position_policy: PcrPositionPolicy,
    /// The scheduler.
    pub state: State,
    /// Whether the input has ended.
    pub closing: bool,
    /// When the run started.
    pub started_at: Nanos,
    /// The last report, and when it was made.
    pub reported: Option<(SourceState, Nanos)>,
}

impl Run {
    /// The longest to wait for a packet while the output clock has not started.
    /// Once content has come, a delivery's end has to be noticed.
    pub open spec fn budget(self) -> Nanos {
        if self.state.last_content_at is Some {
            DELIVERY_GAP
        } else {
            match self.state.stall.limit(self.state.target) {
                Some(limit) => limit,
                None => IDLE_POLL,
            }
        }
    }

    /// How long the source has delivered nothing, from the start of the run if it
    /// never has.
    pub open spec fn unheard(self, now: Nanos) -> Nanos {
        if self.state.last_content_at is Some {
            self.state.silence(now)
        } else {
            elapsed(self.started_at, now)
        }
    }

    /// Whether silence up to `now` ends a run whose output has not started.
    pub open spec fn gives_up(self, now: Nanos) -> bool {
        &&& self.stall_policy is Fail
        &&& self.state.anchor is None
        &&& self.state.stall.limit(self.state.target) matches Some(limit) && self.unheard(now)
            >= limit
    }

    /// Whether a report of `source` is owed at `now`: it has changed, or the last
    /// one is old.
    pub open spec fn report_owed(self, source: SourceState, now: Nanos) -> bool {
        match self.reported {
            None => true,
            Some((last, at)) => last != source || elapsed(at, now) >= HEALTH_INTERVAL,
        }
    }

    /// The report of `source` made at `now`, if one is owed.
    pub open spec fn report(self, source: SourceState, now: Nanos) -> Option<Health> {
        if self.report_owed(source, now) {
            Some(Health { source, stats: self.state.snapshot() })
        } else {
            None
        }
    }

    /// The run once `source` has been reported at `now`, if that was owed.
    pub open spec fn after_report(self, source: SourceState, now: Nanos) -> Run {
        if self.report_owed(source, now) {
            Run { reported: Some((source, now)), ..self }
        } else {
            self
        }
    }

    /// The run once the input has ended: what was held back is placed, and an
    /// output that never started does so if there is anything for it.
    pub open spec fn ended(self, now: Nanos) -> Run {
        let placed = self.state.flushed();
        Run {
            state: if placed.pending() {
                placed.forced(now)
            } else {
                placed
            },
            closing: true,
            ..self
        }
    }

    /// The run after a wait for a packet that came back empty.
    pub open spec fn silent(self, now: Nanos) -> Run {
        let polled = Run { state: self.state.polled(now), ..self };
        polled.after_report(polled.state.source(now), now)
    }

    /// Whether the source's PCR positions end the run.
    pub open spec fn misplaced(self) -> bool {
        self.position_policy is Fail && self.state.diverged()
    }

    /// What a datagram's due time leaves of the scheduler.
    pub open spec fn turned(self, now: Nanos) -> State {
        match (self.state.source(now), self.stall_policy) {
            (SourceState::Stalled, StallPolicy::Mute) => self.state.muted(now),
            (SourceState::Stalled, StallPolicy::Fail) => self.state,
            _ => self.state.emitted(now),
        }
    }
}

/// Whether `r` is what a source whose PCR positions have strayed is refused with, or
/// not, as `run` says.
pub open spec fn position_checked<T>(run: Run, r: Result<T>) -> bool {
    if run.misplaced() {
        r == Err::<T, Error>(
            Error::SourcePcrPosition {
                displacement_packets: run.state.snapshot().pcr_position_displacement,
                overruns: run.state.snapshot().pcr_position_overruns,
            },
        )
    } else {
        r is Ok
    }
}

/// The pacing engine. See the module docs.
#[derive(Debug)]
pub struct Engine {
    stall_policy: StallPolicy,
    position_policy: PcrPositionPolicy,
    scheduler: Scheduler,
    closing: bool,
    started_at: Nanos,
    reporter: Reporter,
}

impl View for Engine {
    type V = Run;

    closed spec fn view(&self) -> Run {
        Run {
            stall_policy: self.stall_policy,
            position_policy: self.position_policy,
            state: self.scheduler@,
            closing: self.closing,
            started_at: self.started_at,
            reported: self.reporter.last,
        }
    }
}

impl Engine {
    /// The scheduler is well formed.
    pub closed spec fn wf(&self) -> bool {
        self.scheduler.wf()
    }

    /// The datagram last assembled.
    pub closed spec fn assembled(&self) -> Seq<u8> {
        self.scheduler.assembled()
    }

    /// Start a run at `now`, its rate known: a rate still to be measured is settled
    /// by a [`Warmup`] first.
    pub fn new(config: &Config, now: Nanos) -> (r: Result<Self>)
        requires
            config.latency.wf(),
        ensures
            match config.refusal() {
                Some(refusal) => r matches Err(Error::Config(message)) && message@
                    == refusal.wording(),
                None => r matches Ok(engine) && engine.wf() && engine@ == (Run {
                    stall_policy: config.stall_policy,
                    position_policy: config.pcr_position_policy,
                    state: State::initial(*config),
                    closing: false,
                    started_at: now,
                    reported: None,
                }),
            },
    {
        match config.validate() {
            Ok(()) => Ok(
                Engine {
                    stall_policy: config.stall_policy,
                    position_policy: config.pcr_position_policy,
                    scheduler: Scheduler::new(config),
                    closing: false,
                    started_at: now,
                    reporter: Reporter::new(),
                },
            ),
            Err(error) => Err(error),
        }
    }

    /// What to wait for next.
    pub fn next(&mut self, now: Nanos) -> (step: Step)
        requires
            old(self).wf(),
        ensures
            final(self).wf(),
            match old(self)@.state.due() {
                None => final(self)@ == old(self)@ && step == (if old(self)@.closing {
                    Step::Done { health: None }
                } else {
                    Step::Receive { budget: old(self)@.budget() }
                }),
                Some(due) => if old(self)@.closing && !old(self)@.state.pending() {
                    let source = old(self)@.state.source(now);
                    &&& final(self)@ == (Run { reported: Some((source, now)), ..old(self)@ })
                    &&& step == (Step::Done {
                        health: Some(Health { source, stats: old(self)@.state.snapshot() }),
                    })
                } else {
                    final(self)@ == old(self)@ && step == (Step::Pace {
                        due,
                        listen: !old(self)@.closing,
                    })
                },
            },
    {
        match self.scheduler.next_due() {
            None => if self.closing {
                Step::Done { health: None }
            } else {
                Step::Receive { budget: self.wait_budget() }
            },
            Some(due) => if self.closing && !self.scheduler.has_pending() {
                let health: Health = self.reporter.force(&self.scheduler, now);
                Step::Done { health: Some(health) }
            } else {
                Step::Pace { due, listen: !self.closing }
            },
        }
    }

    /// How long to wait on a silent source before coming back to report health.
    fn wait_budget(&self) -> (r: Nanos)
        requires
            self.wf(),
        ensures
            r == self@.budget(),
    {
        if self.scheduler.content_seen() {
            return DELIVERY_GAP;
        }
        match self.scheduler.stall_timeout() {
            Some(timeout) => timeout,
            None => IDLE_POLL,
        }
    }

    /// A packet arrived. Returns the rate sample it completes, if any, for
    /// [`Engine::fold_rate`].
    pub fn arrived(&mut self, packet: Packet, now: Nanos) -> (r: Result<Option<RateSample>>)
        requires
            old(self).wf(),
        ensures
            final(self).wf(),
            final(self)@ == (Run { state: old(self)@.state.enqueued(packet@, now), ..old(self)@ }),
            position_checked(final(self)@, r),
            r matches Ok(sample) ==> sample == old(self)@.state.sample(packet@, now),
    {
        let sample: Option<RateSample> = self.scheduler.enqueue(packet, now);
        match self.check_position() {
            Ok(()) => Ok(sample),
            Err(error) => Err(error),
        }
    }

    /// Refine the media-rate estimate by a sample that [`Engine::arrived`] returned.
    pub fn fold_rate(&mut self, sample: RateSample, decay: u64)
        requires
            old(self).wf(),
        ensures
            final(self).wf(),
            final(self)@ == (Run {
                state: State {
                    media: old(self)@.state.media.folded(sample, decay),
                    ..old(self)@.state
                },
                ..old(self)@
            }),
    {
        self.scheduler.fold_rate(sample, decay);
    }

    /// The input ended. What stream clocking held back waiting for a closing PCR is
    /// placed, and an output that never started does so now rather than discard
    /// the programme in hand.
    pub fn ended(&mut self, now: Nanos) -> (r: Result<()>)
        requires
            old(self).wf(),
        ensures
            final(self).wf(),
            final(self)@ == old(self)@.ended(now),
            position_checked(final(self)@, r),
    {
        self.scheduler.flush();
        self.closing = true;
        if self.scheduler.has_pending() {
            self.scheduler.start_now(now);
        }
        self.check_position()
    }

    /// Refuse a source whose PCR positions have strayed, under the policy that does.
    fn check_position(&self) -> (r: Result<()>)
        requires
            self.wf(),
        ensures
            position_checked(self@, r),
    {
        if self.position_policy == PcrPositionPolicy::Fail
            && self.scheduler.pcr_position_diverged() {
            let stats: Stats = self.scheduler.stats();
            return Err(
                Error::SourcePcrPosition {
                    displacement_packets: stats.pcr_position_displacement,
                    overruns: stats.pcr_position_overruns,
                },
            );
        }
        Ok(())
    }

    /// A wait for a packet came back empty. Distinct from the input ending: the
    /// source is still open, it just isn't delivering, which is the failure mode a
    /// pacer otherwise papers over. The first value returned is a report, the
    /// second what ends the run.
    pub fn silent(&mut self, now: Nanos) -> (r: (Option<Health>, Result<()>))
        requires
            old(self).wf(),
        ensures
            final(self).wf(),
            final(self)@ == old(self)@.silent(now),
            ({
                let polled = Run { state: old(self)@.state.polled(now), ..old(self)@ };
                &&& r.0 == polled.report(polled.state.source(now), now)
                &&& r.1 == if polled.gives_up(now) {
                    Err::<(), Error>(Error::SourceStalled { silent_for: polled.unheard(now) })
                } else {
                    Ok::<(), Error>(())
                }
            }),
    {
        self.scheduler.poll_start(now);
        let state: SourceState = self.scheduler.state(now);
        let health: Option<Health> = self.reporter.report(&self.scheduler, state, now);
        let silent_for: Nanos = if self.scheduler.content_seen() {
            self.scheduler.silent_for(now)
        } else {
            elapsed(self.started_at, now)
        };
        let gone: bool = match self.scheduler.stall_timeout() {
            Some(timeout) => silent_for >= timeout,
            None => false,
        };
        if gone && self.stall_policy == StallPolicy::Fail && self.scheduler.next_due().is_none() {
            return (health, Err(Error::SourceStalled { silent_for }));
        }
        (health, Ok(()))
    }

    /// The output clock came due.
    ///
    /// One state read per slot: the buffer can empty *inside* this slot, so
    /// re-reading it after emitting would report a stall the slot's own bookkeeping
    /// has not counted yet. The report, if there is one, follows the datagram.
    pub fn woke(&mut self, now: Nanos) -> (r: (Turn, Option<Health>))
        requires
            old(self).wf(),
        ensures
            final(self).wf(),
            ({
                let run = old(self)@;
                let source = run.state.source(now);
                let turned = Run { state: run.turned(now), ..run };
                match (source, run.stall_policy) {
                    (SourceState::Stalled, StallPolicy::Mute) => {
                        &&& r.0 == Turn::Muted
                        &&& r.1 == turned.report(source, now)
                        &&& final(self)@ == turned.after_report(source, now)
                    },
                    (SourceState::Stalled, StallPolicy::Fail) => {
                        &&& r.0 == Turn::Failed(
                            Error::SourceStalled { silent_for: run.state.silence(now) },
                        )
                        &&& r.1 == Some(Health { source, stats: run.state.snapshot() })
                        &&& final(self)@ == (Run { reported: Some((source, now)), ..run })
                    },
                    _ => {
                        &&& r.0 == Turn::Send(run.state.caught_up(now).framing())
                        &&& r.1 == turned.report(source, now)
                        &&& final(self)@ == turned.after_report(source, now)
                        &&& final(self).assembled() == run.state.datagram(now)
                    },
                }
            }),
    {
        let state: SourceState = self.scheduler.state(now);
        if state == SourceState::Stalled {
            match self.stall_policy {
                // The source is gone, not late. Hold the byte clock but put
                // nothing on the wire, so downstream sees the carrier stop
                // instead of a programme-free stream it will read as healthy.
                StallPolicy::Mute => {
                    self.scheduler.advance_muted(now);
                    let health: Option<Health> = self.reporter.report(
                        &self.scheduler,
                        state,
                        now,
                    );
                    return (Turn::Muted, health);
                },
                StallPolicy::Fail => {
                    let health: Health = self.reporter.force(&self.scheduler, now);
                    let silent_for: Nanos = self.scheduler.silent_for(now);
                    return (Turn::Failed(Error::SourceStalled { silent_for }), Some(health));
                },
                StallPolicy::Continue => {},
            }
        }
        // Offered before the bytes, so a sink that numbers its output numbers it
        // from the stream rather than from its own send count - and once the output
        // is on the slot those bytes belong to.
        proof {
            law_catching_up_is_done_once(self@.state, now);
        }
        self.scheduler.catch_up(now);
        let framing: Option<Framing> = self.scheduler.framing();
        let _ = self.scheduler.emit_datagram(now);
        let health: Option<Health> = self.reporter.report(&self.scheduler, state, now);
        (Turn::Send(framing), health)
    }

    /// The datagram to send after [`Turn::Send`].
    pub fn datagram(&self) -> (r: &[u8])
        ensures
            r@ == self.assembled(),
    {
        self.scheduler.datagram()
    }

    /// The statistics so far.
    pub fn stats(&self) -> (r: Stats)
        requires
            self.wf(),
        ensures
            r == self@.state.snapshot(),
    {
        self.scheduler.stats()
    }
}

/// Rate-limits health reporting to transitions plus a slow heartbeat.
#[derive(Debug)]
struct Reporter {
    last: Option<(SourceState, Nanos)>,
}

impl Reporter {
    fn new() -> (r: Self)
        ensures
            r.last is None,
    {
        Reporter { last: None }
    }

    /// Report if the state changed or the heartbeat is due.
    ///
    /// `state` is the state the caller acted on, not a fresh reading, so the
    /// counters in the report describe the same slot as the state it names.
    fn report(&mut self, scheduler: &Scheduler, state: SourceState, now: Nanos) -> (health: Option<
        Health,
    >)
        requires
            scheduler.wf(),
        ensures
            ({
                let owed = match old(self).last {
                    None => true,
                    Some((last, at)) => last != state || elapsed(at, now) >= HEALTH_INTERVAL,
                };
                if owed {
                    &&& final(self).last == Some((state, now))
                    &&& health == Some(Health { source: state, stats: scheduler@.snapshot() })
                } else {
                    final(self).last == old(self).last && health is None
                }
            }),
    {
        let due: bool = match self.last {
            None => true,
            Some((last, at)) => last != state || elapsed(at, now) >= HEALTH_INTERVAL,
        };
        if due {
            Some(self.emit(scheduler, state, now))
        } else {
            None
        }
    }

    /// Report unconditionally (a terminal transition the caller must not miss).
    fn force(&mut self, scheduler: &Scheduler, now: Nanos) -> (health: Health)
        requires
            scheduler.wf(),
        ensures
            final(self).last == Some((scheduler@.source(now), now)),
            health == (Health { source: scheduler@.source(now), stats: scheduler@.snapshot() }),
    {
        let state: SourceState = scheduler.state(now);
        self.emit(scheduler, state, now)
    }

    fn emit(&mut self, scheduler: &Scheduler, state: SourceState, now: Nanos) -> (health: Health)
        requires
            scheduler.wf(),
        ensures
            final(self).last == Some((state, now)),
            health == (Health { source: state, stats: scheduler@.snapshot() }),
    {
        self.last = Some((state, now));
        Health { source: state, stats: scheduler.stats() }
    }
}

/// How many of `packets` carry a PCR.
pub open spec fn clocked_count(packets: Seq<Packet>) -> nat
    decreases packets.len(),
{
    if packets.len() == 0 {
        0
    } else {
        clocked_count(packets.drop_last()) + if pcr_of(packets.last()@) is Some {
            1nat
        } else {
            0nat
        }
    }
}

/// The rate locked for a source whose warm-up was `packets`: what it measured plus
/// the headroom, or the fallback as it stands where it measured nothing.
pub open spec fn auto_rate(packets: Seq<Packet>, headroom: Ratio) -> u64 {
    match content_bitrate(packets) {
        Some(content) => larger(
            capped(content + content * headroom.numerator / headroom.denominator as int),
            1,
        ),
        None => DEFAULT_AUTO_FALLBACK,
    }
}

/// Gathers packets until enough PCRs are seen to estimate the content rate.
///
/// The rate is locked for the whole run, so a source that goes quiet mid-warm-up
/// is only resolved early once there is something real to measure: guessing from
/// one packet would pin the fallback rate to the entire session.
#[derive(Debug)]
pub struct Warmup {
    packets: Vec<Packet>,
    pcrs: usize,
    headroom: Ratio,
    timeout: Option<Nanos>,
    hard: bool,
    started_at: Nanos,
}

impl Warmup {
    /// What has been gathered.
    pub closed spec fn gathered(&self) -> Seq<Packet> {
        self.packets@
    }

    /// The margin above the measured rate.
    pub closed spec fn margin(&self) -> Ratio {
        self.headroom
    }

    /// The silence after which the source counts as gone.
    pub closed spec fn limit(&self) -> Option<Nanos> {
        self.timeout
    }

    /// Whether that ends the run.
    pub closed spec fn fails(&self) -> bool {
        self.hard
    }

    /// When the warm-up started.
    pub closed spec fn since(&self) -> Nanos {
        self.started_at
    }

    /// The count of PCRs is right, and the headroom is a proportion.
    pub closed spec fn wf(&self) -> bool {
        &&& self.pcrs == clocked_count(self.packets@)
        &&& self.headroom.wf()
    }

    /// Whether enough has been gathered.
    pub open spec fn enough(packets: Seq<Packet>) -> bool {
        clocked_count(packets) >= AUTO_WARMUP_PCRS || packets.len() >= AUTO_WARMUP_MAX_PACKETS
    }

    /// Start a warm-up at `now`, to lock the measured rate plus `headroom`.
    pub fn new(config: &Config, headroom: Ratio, now: Nanos) -> (r: Self)
        requires
            config.latency.wf(),
            headroom.wf(),
        ensures
            r.wf(),
            r.gathered() == Seq::<Packet>::empty(),
            r.margin() == headroom,
            r.limit() == config.stall.limit(config.latency.cushion(0)),
            r.fails() == (config.stall_policy is Fail),
            r.since() == now,
    {
        Warmup {
            packets: Vec::new(),
            pcrs: 0,
            headroom,
            timeout: config.stall.timeout(config.latency.target(0)),
            hard: config.stall_policy == StallPolicy::Fail,
            started_at: now,
        }
    }

    /// How long to wait for the next packet.
    pub fn wait_budget(&self) -> (r: Nanos)
        ensures
            r == match self.limit() {
                Some(limit) => limit,
                None => IDLE_POLL,
            },
    {
        match self.timeout {
            Some(timeout) => timeout,
            None => IDLE_POLL,
        }
    }

    /// A packet arrived. Returns whether the warm-up is over.
    pub fn arrived(&mut self, packet: Packet) -> (done: bool)
        requires
            old(self).wf(),
        ensures
            final(self).wf(),
            final(self).gathered() == old(self).gathered().push(packet),
            final(self).margin() == old(self).margin(),
            final(self).limit() == old(self).limit(),
            final(self).fails() == old(self).fails(),
            final(self).since() == old(self).since(),
            done == Warmup::enough(final(self).gathered()),
    {
        let clocked: bool = packet.has_pcr();
        let ghost before = self.packets@;
        self.packets.push(packet);
        let n: usize = self.packets.len();
        proof {
            lemma_clocked_count_bound(before);
            assert(self.packets@.drop_last() =~= before);
        }
        if clocked {
            self.pcrs = self.pcrs + 1;
        }
        self.pcrs >= AUTO_WARMUP_PCRS || n >= AUTO_WARMUP_MAX_PACKETS
    }

    /// A wait for a packet came back empty. Returns whether the warm-up is over:
    /// two PCRs is a measurable window, and below that it is better to keep waiting
    /// than to lock a guess.
    pub fn silent(&self, now: Nanos) -> (r: Result<bool>)
        requires
            self.wf(),
        ensures
            r == if self.limit() is Some && self.fails() {
                Err::<bool, Error>(Error::SourceStalled { silent_for: elapsed(self.since(), now) })
            } else {
                Ok::<bool, Error>(clocked_count(self.gathered()) >= 2)
            },
    {
        if self.timeout.is_some() && self.hard {
            return Err(Error::SourceStalled { silent_for: elapsed(self.started_at, now) });
        }
        Ok(self.pcrs >= 2)
    }

    /// The locked mux rate (measured content rate plus headroom, or the fallback where
    /// there was no usable PCR to measure) and the gathered packets, so the caller can
    /// prime the scheduler with them.
    pub fn resolve(self) -> (r: (u64, Vec<Packet>))
        requires
            self.wf(),
        ensures
            r.0 == auto_rate(self.gathered(), self.margin()),
            r.1@ == self.gathered(),
    {
        let bitrate: u64 = match estimate_content_bitrate(self.packets.as_slice()) {
            Some(content) => {
                let extra: u128 = product(content, self.headroom.numerator) / (
                self.headroom.denominator as u128);
                larger(cap(content as u128 + extra), 1)
            },
            None => DEFAULT_AUTO_FALLBACK,
        };
        (bitrate, self.packets)
    }
}

/// No more PCRs than packets.
proof fn lemma_clocked_count_bound(packets: Seq<Packet>)
    ensures
        clocked_count(packets) <= packets.len(),
    decreases packets.len(),
{
    if packets.len() > 0 {
        lemma_clocked_count_bound(packets.drop_last());
    }
}

/// A report of a stall carries the stall it announces: the counters in it have
/// counted that stall, and the silence that caused it.
pub proof fn law_a_stall_report_carries_its_stall(run: Run, now: Nanos)
    requires
        run.state.source(now) is Stalled,
        run.stall_policy is Mute,
        run.state.stats.stalls < u64::MAX,
    ensures
        ({
            let after = Run { state: run.turned(now), ..run };
            let stats = after.state.snapshot();
            &&& !run.state.stalled ==> stats.stalls == run.state.stats.stalls + 1
            &&& stats.content_gap_max_ms >= in_millis(run.state.silence(now))
        }),
{
}

/// Every transition is reported, at once: a state other than the one last reported
/// is owed a report.
pub proof fn law_transitions_are_reported(run: Run, source: SourceState, now: Nanos)
    requires
        run.reported matches Some((last, _)) ==> last != source,
    ensures
        run.report(source, now) is Some,
        run.after_report(source, now).reported == Some((source, now)),
{
}

/// A short input is still paced out: one that ends before its cushion filled starts
/// the output with what there is, and the run is over only once that has gone.
pub proof fn law_a_short_input_is_paced_out(run: Run, now: Nanos)
    ensures
        run.ended(now).state.pending() ==> run.ended(now).state.due() is Some,
        run.ended(now).closing,
{
}

/// An empty source produces no output: nothing pends when it ends, and the clock has
/// not started.
pub proof fn law_an_empty_source_produces_nothing(config: Config, now: Nanos)
    requires
        config.latency.wf(),
    ensures
        ({
            let run = Run {
                stall_policy: config.stall_policy,
                position_policy: config.pcr_position_policy,
                state: State::initial(config),
                closing: false,
                started_at: now,
                reported: None,
            };
            &&& run.ended(now).state.due() is None
            &&& run.ended(now).state.stats.output_packets == 0
        }),
{
}

} // verus!
