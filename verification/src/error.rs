//! Error and result types for the pacer.

use vstd::prelude::*;

use crate::arith::Nanos;

verus! {

/// Errors surfaced by the pacer.
#[derive(Clone, Copy, Debug)]
#[non_exhaustive]
pub enum Error {
    /// A byte buffer was not a well-formed 188-byte MPEG-TS packet.
    InvalidPacket(&'static str),
    /// The pacer's background emitter task has stopped, so no more packets can be
    /// pushed.
    Closed,
    /// A configuration asks for something the mode cannot deliver, checked before a
    /// run starts rather than discovered as output that does not merge.
    Config(&'static str),
    /// The source delivered no content for longer than the stall timeout, under
    /// [`StallPolicy::Fail`](crate::StallPolicy::Fail). A stalled source is not an
    /// I/O error: the transport is usually still open and simply silent, which is
    /// why it needs its own variant.
    SourceStalled {
        /// How long the input had been silent when the pacer gave up.
        silent_for: Nanos,
    },
    /// The source's PCR byte positions do not advance with its PCR values, by more
    /// than the buffer can absorb, under
    /// [`PcrPositionPolicy::Fail`](crate::PcrPositionPolicy::Fail).
    ///
    /// Not a malformed stream: the PCR values can be an exact grid and every check
    /// on them pass. It is that the packets carrying them are clustered, so
    /// spreading each run across the span its own values imply displaces the grid
    /// further on every cycle instead of recovering. Past the buffer bound the
    /// leg's live edge outruns its own output clock and programme is discarded by
    /// slot, which is why this is an error rather than a statistic: the output
    /// would still carry a byte-locked PCR and still pass a downstream conformance
    /// check, over a stream that had quietly lost content.
    SourcePcrPosition {
        /// Furthest placement ran past the slot the source's PCR values imply, in
        /// 188-byte packets.
        displacement_packets: u64,
        /// PCR intervals that carried more packets than their own span had slots
        /// for.
        overruns: u64,
    },
}

/// Convenience alias for a [`Result`](std::result::Result) with this crate's [`Error`].
pub type Result<T> = std::result::Result<T, Error>;

} // verus!
