//! Liveness state: what the pacer's input is doing.
//!
//! A pacer's output tells you nothing about its input. It holds the wire at a
//! constant rate whether the source is delivering a programme, delivering
//! nothing, or gone entirely, because that is what constant-bitrate stuffing
//! does. So carrier liveness and *content* liveness are separate facts, and only
//! the pacer is in a position to report the second one.
//!
//! [`SourceState`] is that fact: feed it to a health endpoint, a GPI relay, or the
//! supervisor deciding whether to fail a redundancy leg over.

use vstd::prelude::*;

use crate::stats::Stats;

verus! {

/// What the pacer's input is currently doing.
///
/// Derived from when content last *arrived*, not from what was last emitted:
/// emission is gated by the media clock, so a perfectly healthy below-rate feed
/// produces stuffing all day and says nothing about the source.
#[derive(Clone, Copy, Debug, PartialEq, Eq, Structural)]
pub enum SourceState {
    /// No content has arrived yet, or the de-jitter buffer is still priming
    /// towards the first emit.
    Priming,
    /// Content is arriving, or buffered media is still being released. A dead
    /// source draining its cushion counts as live: real programme is going to air.
    Live,
    /// The buffer has run dry and no content has arrived for longer than the
    /// configured de-jitter latency, so the output is running on fumes, but still
    /// inside the stall grace period. Ordinary on a lumpy transport; sustained, it
    /// is the warning ahead of [`SourceState::Stalled`].
    Starved,
    /// The buffer is empty and no content has arrived for longer than
    /// [`Config::stall`](crate::Config) allows. The source is treated as gone
    /// rather than late, and the configured stall policy applies.
    Stalled,
}

impl Default for SourceState {
    fn default() -> (r: Self)
        ensures
            r == SourceState::Priming,
    {
        SourceState::Priming
    }
}

impl SourceState {
    /// Whether the input is delivering content (`Priming` counts as not yet).
    pub fn is_live(&self) -> (r: bool)
        ensures
            r == (*self is Live),
    {
        matches!(self, SourceState::Live)
    }

    /// Whether the input has been silent past the stall timeout.
    pub fn is_stalled(&self) -> (r: bool)
        ensures
            r == (*self is Stalled),
    {
        matches!(self, SourceState::Stalled)
    }
}

/// A snapshot of what the pacer's input is doing and what it has emitted.
#[derive(Clone, Copy, Debug)]
pub struct Health {
    /// The current input state.
    pub source: SourceState,
    /// Cumulative counters at the moment of the snapshot.
    pub stats: Stats,
}

impl Default for Health {
    fn default() -> (r: Self)
        ensures
            r.source == SourceState::Priming,
            r.stats == Stats::zero(),
    {
        Health { source: SourceState::Priming, stats: Stats::default() }
    }
}

} // verus!
