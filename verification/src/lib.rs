//! Transport-agnostic MPEG-TS constant-bitrate pacer for broadcast (IRD) egress.
//!
//! Modern IP transports (MoQ, SRT, RIST, segmented HTTP, file playback) deliver
//! MPEG-TS in bursts. Professional Integrated Receiver/Decoders (IRDs) expect a
//! smooth, constant-bitrate transport with byte-accurate PCR. This crate is the
//! missing adaptation layer between the two: feed it already-multiplexed transport
//! packets and it emits a deterministic CBR stream a hardware IRD will accept.
//!
//! # Buffer depth
//!
//! Burst granularity differs by two orders of magnitude between transports. An
//! object transport arrives in kilobyte bursts milliseconds apart; a
//! segment-fetching one arrives in megabyte bursts seconds apart. A pacer set for
//! the first and fed the second drops programme out of a healthy feed on every
//! segment, starts on a timer holding a fraction of what it needs, and reads every
//! ordinary inter-segment gap as a dead source.
//!
//! So by default the depths are measured rather than configured. The pacer tracks
//! how much media its input hands over *ahead of real time* - which is precisely
//! the occupancy the arrival pattern forces - and derives the cushion, the hard cap
//! and the stall timeout from it. A feed delivered at the media rate never gets
//! ahead, so it stays on the 200 ms floor; a feed fetched a segment at a time
//! settles on a multiple of the segment duration. See [`Latency`] for the mechanism
//! and its costs, and pin any depth to turn it off.
//!
//! It is **not** a muxer. It never demultiplexes, remultiplexes, rewrites PSI,
//! regenerates PAT/PMT, or touches continuity counters. PID structure and
//! PES/PSI payloads pass through untouched. It shapes *transmission timing* and,
//! optionally, byte-locks the PCR. The only bytes it ever rewrites are the six
//! PCR octets under [`PcrMode::Regenerate`], and the discontinuity indicator where
//! there is a discontinuity to indicate.
//!
//! # Layout
//!
//! [`Scheduler`] is the heart: packets in, datagrams out, on a clock that it is
//! told. [`pacer::Engine`] decides what a driver of it does next. Neither performs
//! any I/O or reads any clock: instants are handed in as [`arith::Nanos`], so a run
//! is a function of its inputs. [`schedule`] states what each event does, and
//! [`laws`], [`account`], [`passage`], [`whole_run`], [`repetition`], [`continuity`],
//! [`pair`] and [`joining`] what follows for every run. [`timing`], [`recovery`],
//! [`landing`], [`cadence`], [`depths`], [`conduct`], [`outcomes`] and [`choices`] state
//! what it all comes to in plain units: bits, ticks, nanoseconds, slots and octets.
//!
//! # Content liveness
//!
//! Stuffing null packets to hold a rate is the right answer to a *late* source and
//! the wrong answer to an *absent* one. A pacer left to it will emit a
//! byte-perfect carrier - valid transport, correct rate, PCR present and accurate
//! - with no programme in it, for as long as it is left running, and every signal
//! a monitor or a 1+1 receiver keys on (arrival, loss, continuity) reads healthy.
//!
//! So the pacer tracks when content last *arrived*, not just what it emitted. Past
//! what [`Config::stall`] allows the source is treated as gone: no PCR is inserted
//! into a programme-free stream, and [`Config::stall_policy`] decides what happens
//! to the carrier - by default [`StallPolicy::Mute`], which stops emitting while
//! holding the output byte clock, and resumes when content returns.
//!
//! # Redundant pairs
//!
//! By default the pacer decides what goes in each output slot from its own emit
//! clock, which is correct for one output and wrong for two: an ST 2022-7
//! receiver merges a pair by matching RTP sequence numbers and expects the legs
//! to be packet-identical, and two pacers clocked on their own emit instants are
//! not. [`Clocking::Stream`] places every packet on the absolute slot its source
//! PCR implies, and numbers the output from that slot, so what a leg sends is a
//! function of the stream rather than of the leg - two of them agree without
//! sharing a process, and one can join, leave and rejoin the pair on its own.
//!
//! Rejoining has two conditions the mode has to meet, both of which are about
//! refusing to take a delivery accident as a fact about the stream. A leg that
//! subscribes to a running broadcast is handed whatever the relay has buffered,
//! oldest first, and keeps its output clock at the live edge of it rather than
//! at its head - when it starts, and again whenever the backlog arrives after
//! the clock is already running. And a leg that has been cut off for longer than a
//! source discontinuity is allowed to last reads the jump in its source PCR against
//! the time it spent silent, so that missing the middle of a stream is not mistaken
//! for the stream being spliced.

pub mod account;
pub mod arith;
pub mod arrival;
pub mod cadence;
pub mod choices;
pub mod cli;
pub mod conduct;
pub mod config;
pub mod continuity;
pub mod depths;
pub mod error;
pub mod estimate;
pub mod jitter_buffer;
pub mod joining;
pub mod landing;
pub mod laws;
pub mod media_clock;
pub mod null_insertion;
pub mod observe;
pub mod outcomes;
pub mod output;
pub mod pacer;
pub mod packet;
pub mod pair;
pub mod passage;
pub mod pcr;
pub mod recovery;
pub mod repetition;
pub mod report;
pub mod rounding;
pub mod schedule;
pub mod scheduler;
pub mod shared_bytes;
pub mod slot;
pub mod source;
pub mod stats;
pub mod stream_grid;
pub mod text;
pub mod timing;
pub mod whole_run;

pub use arrival::{BURST_SEPARATION, DELIVERY_GAP};
pub use config::{
    Bitrate, Clocking, Config, Latency, PcrMode, PcrPositionPolicy, Stall, StallPolicy,
    DEFAULT_AUTO_FALLBACK, DEFAULT_AUTO_HEADROOM, DEFAULT_LATENCY, DEFAULT_LATENCY_CEILING,
    DEFAULT_LATENCY_FACTOR, DEFAULT_MAX_LATENCY, DEFAULT_PACKETS_PER_DATAGRAM,
    DEFAULT_STALL_GRACE,
};
pub use error::{Error, Result};
pub use estimate::estimate_content_bitrate;
pub use null_insertion::NULL_PID;
pub use observe::{Health, SourceState};
pub use output::{Framing, RTP_PAYLOAD_TYPE_MP2T};
pub use packet::Packet;
pub use pcr::{SYNC_BYTE, TS_PACKET_SIZE};
pub use scheduler::Scheduler;
pub use source::ReadSource;
pub use stats::Stats;
