//! Where a datagram sits in the stream, and how it is framed for the wire.
//!
//! The scheduler produces coalesced datagrams (7 * 188 = 1316 bytes by default).
//! They leave as they are, or each behind an RTP header (RFC 2250 MPEG-TS
//! carriage), whose numbering is the sink's own send count unless the pacer offers
//! a [`Framing`] taken from the stream.

use vstd::prelude::*;

use crate::arith::Nanos;

verus! {

/// RTP payload type for MPEG-2 transport streams (RFC 2250 / RFC 3551).
pub const RTP_PAYLOAD_TYPE_MP2T: u8 = 33;

/// Octets of a fixed RTP header.
pub const RTP_HEADER_SIZE: usize = 12;

/// The RTP version in the first octet's top two bits.
pub const RTP_VERSION: u8 = 2;

/// Where a datagram sits in the stream, for a sink that numbers its output.
#[derive(Clone, Copy, Debug, PartialEq, Eq, Structural)]
pub struct Framing {
    /// Absolute output slot of the datagram's first packet.
    pub slot: u64,
    /// RTP sequence number implied by that slot.
    pub sequence: u16,
    /// 90 kHz RTP timestamp implied by that slot.
    pub timestamp_90khz: u32,
}

/// The fixed RTP header: version 2, no padding, extension, contributing sources or
/// marker, payload type MP2T, every number most significant octet first.
pub open spec fn rtp_header(sequence: u16, timestamp: u32, ssrc: u32) -> Seq<u8> {
    seq![
        0x80u8,
        RTP_PAYLOAD_TYPE_MP2T,
        (sequence / 0x100) as u8,
        (sequence % 0x100) as u8,
        (timestamp / 0x100_0000) as u8,
        (timestamp / 0x1_0000 % 0x100) as u8,
        (timestamp / 0x100 % 0x100) as u8,
        (timestamp % 0x100) as u8,
        (ssrc / 0x100_0000) as u8,
        (ssrc / 0x1_0000 % 0x100) as u8,
        (ssrc / 0x100 % 0x100) as u8,
        (ssrc % 0x100) as u8,
    ]
}

/// The 90 kHz timestamp of an instant `elapsed` after the start, wrapping.
pub open spec fn timestamp_at(elapsed: Nanos) -> u32 {
    (elapsed * 9 / 100_000 % 0x1_0000_0000) as u32
}

/// Wraps each datagram in an RTP header.
///
/// Sequence numbers increment per datagram and wrap, and the 90 kHz timestamp is
/// sampled from the time since the start - unless the pacer has offered framing for
/// the datagram, which then decides both.
#[derive(Debug)]
pub struct RtpPacketizer {
    sequence: u16,
    ssrc: u32,
    framing: Option<Framing>,
    scratch: Vec<u8>,
}

impl RtpPacketizer {
    /// Datagrams sent so far, as the next sequence number of its own.
    pub closed spec fn count(&self) -> u16 {
        self.sequence
    }

    /// The synchronisation source it stamps.
    pub closed spec fn source(&self) -> u32 {
        self.ssrc
    }

    /// The framing offered for the next datagram.
    pub closed spec fn offered(&self) -> Option<Framing> {
        self.framing
    }

    /// A packetizer stamping `ssrc`, numbering from zero.
    pub fn new(ssrc: u32) -> (r: Self)
        ensures
            r.count() == 0,
            r.source() == ssrc,
            r.offered() is None,
    {
        RtpPacketizer {
            sequence: 0,
            ssrc,
            framing: None,
            scratch: Vec::with_capacity(RTP_HEADER_SIZE + 1316),
        }
    }

    /// Number the next datagram from the stream.
    pub fn set_framing(&mut self, framing: Framing)
        ensures
            final(self).offered() == Some(framing),
            final(self).count() == old(self).count(),
            final(self).source() == old(self).source(),
    {
        self.framing = Some(framing);
    }

    /// Wrap one datagram sent `elapsed` after the start.
    pub fn wrap(&mut self, datagram: &[u8], elapsed: Nanos) -> (packet: &[u8])
        ensures
            final(self).offered() is None,
            final(self).count() == (old(self).count() + 1) % 0x1_0000,
            final(self).source() == old(self).source(),
            packet@ == match old(self).offered() {
                Some(f) => rtp_header(f.sequence, f.timestamp_90khz, old(self).source()),
                None => rtp_header(
                    old(self).count(),
                    timestamp_at(elapsed),
                    old(self).source(),
                ),
            } + datagram@,
    {
        let (sequence, timestamp): (u16, u32) = match self.framing {
            Some(framing) => (framing.sequence, framing.timestamp_90khz),
            None => (self.sequence, rtp_timestamp_90khz(elapsed)),
        };
        self.framing = None;
        self.sequence = self.sequence.wrapping_add(1);
        self.scratch.clear();
        push_header(&mut self.scratch, sequence, timestamp, self.ssrc);
        self.scratch.extend_from_slice(datagram);
        self.scratch.as_slice()
    }
}

/// Append an RTP header to an empty buffer.
fn push_header(out: &mut Vec<u8>, sequence: u16, timestamp: u32, ssrc: u32)
    requires
        old(out)@.len() == 0,
    ensures
        final(out)@ == rtp_header(sequence, timestamp, ssrc),
{
    assert(RTP_VERSION << 6 == 0x80 && RTP_PAYLOAD_TYPE_MP2T & 0x7f == RTP_PAYLOAD_TYPE_MP2T)
        by (bit_vector);
    out.push(RTP_VERSION << 6);
    out.push(RTP_PAYLOAD_TYPE_MP2T & 0x7f);
    out.push((sequence / 0x100) as u8);
    out.push((sequence % 0x100) as u8);
    out.push((timestamp / 0x100_0000) as u8);
    out.push((timestamp / 0x1_0000 % 0x100) as u8);
    out.push((timestamp / 0x100 % 0x100) as u8);
    out.push((timestamp % 0x100) as u8);
    out.push((ssrc / 0x100_0000) as u8);
    out.push((ssrc / 0x1_0000 % 0x100) as u8);
    out.push((ssrc / 0x100 % 0x100) as u8);
    out.push((ssrc % 0x100) as u8);
    assert(out@ =~= rtp_header(sequence, timestamp, ssrc));
}

/// The RTP timestamp (90 kHz) for the moment `elapsed` after the start.
pub fn rtp_timestamp_90khz(elapsed: Nanos) -> (timestamp: u32)
    ensures
        timestamp == timestamp_at(elapsed),
{
    let whole: u128 = elapsed / 100_000;
    let rest: u128 = elapsed % 100_000;
    assert(elapsed * 9int / 100_000int == whole * 9int + rest * 9int / 100_000int);
    let ticks: u128 = whole * 9 + rest * 9 / 100_000;
    (ticks % 0x1_0000_0000) as u32
}

/// A best-effort unique SSRC derived from the clock and process id.
pub fn ssrc_from(now_nanos: u64, process: u32) -> (ssrc: u32)
    ensures
        ssrc == (now_nanos ^ ((process as u64) << 16)) % 0x1_0000_0000,
{
    let mixed: u64 = now_nanos ^ ((process as u64) << 16);
    (mixed % 0x1_0000_0000) as u32
}

/// A number read most significant octet first, from the four octets at `at`.
pub open spec fn word_at(b: Seq<u8>, at: int) -> int {
    b[at] * 0x100_0000 + b[at + 1] * 0x1_0000 + b[at + 2] * 0x100 + b[at + 3]
}

/// An RTP header is twelve octets, says that it carries a transport stream, and
/// reads back as the place and the source it was made for.
pub proof fn law_rtp_header_reads_back(sequence: u16, timestamp: u32, ssrc: u32)
    ensures
        ({
            let header = rtp_header(sequence, timestamp, ssrc);
            &&& header.len() == RTP_HEADER_SIZE
            &&& header[0] == 0x80
            &&& header[1] == RTP_PAYLOAD_TYPE_MP2T
            &&& header[2] * 0x100 + header[3] == sequence
            &&& word_at(header, 4) == timestamp
            &&& word_at(header, 8) == ssrc
        }),
{
    let header = rtp_header(sequence, timestamp, ssrc);
    lemma_word_from_its_octets(timestamp as int);
    lemma_word_from_its_octets(ssrc as int);
    assert(word_at(header, 4) == timestamp);
    assert(word_at(header, 8) == ssrc);
}

/// A number is the sum of the parts that its octets carry.
proof fn lemma_word_from_its_octets(n: int)
    requires
        0 <= n < 0x1_0000_0000,
    ensures
        n == (n / 0x100_0000) * 0x100_0000 + (n / 0x1_0000 % 0x100) * 0x1_0000 + (n / 0x100
            % 0x100) * 0x100 + n % 0x100,
        0 <= n / 0x100_0000 < 0x100,
{
    assert(n == n / 0x100 * 0x100 + n % 0x100);
    assert(n / 0x100 == n / 0x1_0000 * 0x100 + n / 0x100 % 0x100);
    assert(n / 0x1_0000 == n / 0x100_0000 * 0x100 + n / 0x1_0000 % 0x100);
}

} // verus!
