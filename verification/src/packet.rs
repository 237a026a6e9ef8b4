//! The [`Packet`] type: one validated, 188-byte MPEG-TS transport packet.

use bytes::Bytes;
use vstd::prelude::*;

use vstd::std_specs::convert::TryFromSpecImpl;

use crate::error::{Error, Result};
use crate::pcr::{pcr_of, read_pcr, SYNC_BYTE, TS_PACKET_SIZE};
use crate::shared_bytes::{as_slice, content, copy_of};

verus! {

/// Whether `b` is a whole transport packet: 188 bytes, the first the sync byte.
pub open spec fn is_packet(b: Seq<u8>) -> bool {
    b.len() == TS_PACKET_SIZE && b[0] == SYNC_BYTE
}

/// The 13-bit PID of a packet of bytes `b`.
pub open spec fn pid_of(b: Seq<u8>) -> u16 {
    ((b[1] as int % 32) * 256 + b[2]) as u16
}

/// What is said of a buffer of the wrong length.
pub open spec fn wrong_length() -> Seq<char> {
    "expected exactly 188 bytes"@
}

/// What is said of a buffer that does not start with the sync byte.
pub open spec fn no_sync_byte() -> Seq<char> {
    "missing 0x47 sync byte"@
}

/// What wrapping bytes `b` as a packet gives: the packet, or what is wrong with
/// them.
pub open spec fn wraps(b: Seq<u8>, r: Result<Packet>) -> bool {
    match r {
        Ok(packet) => is_packet(b) && packet@ == b,
        Err(Error::InvalidPacket(message)) => if b.len() != TS_PACKET_SIZE {
            message@ == wrong_length()
        } else {
            b[0] != SYNC_BYTE && message@ == no_sync_byte()
        },
        Err(_) => false,
    }
}

/// The bytes of each packet.
pub open spec fn bytes_of(packets: Seq<Packet>) -> Seq<Seq<u8>> {
    packets.map_values(|p: Packet| p@)
}

/// A single, validated 188-byte MPEG-TS transport packet.
///
/// Backed by [`Bytes`], so cloning is a cheap refcount bump and the packet path
/// stays copy-free from input to the point where a datagram is assembled. The
/// pacer never demultiplexes, remultiplexes, or rewrites PID/continuity/PSI/PES
/// content; a packet is carried through opaquely (the only exception is the six
/// PCR octets under [`PcrMode::Regenerate`](crate::PcrMode)).
#[derive(Debug, Eq, PartialEq)]
pub struct Packet(Bytes);

impl View for Packet {
    type V = Seq<u8>;

    closed spec fn view(&self) -> Seq<u8> {
        content(self.0)
    }
}

impl Clone for Packet {
    fn clone(&self) -> (r: Self)
        ensures
            r@ == self@,
    {
        proof {
            use_type_invariant(self);
        }
        Packet(self.0.clone())
    }
}

impl Packet {
    #[verifier::type_invariant]
    spec fn valid(self) -> bool {
        is_packet(content(self.0))
    }

    /// Wrap an existing [`Bytes`] of exactly 188 bytes starting with the sync
    /// byte. Zero-copy: the buffer is taken as-is.
    pub fn new(bytes: Bytes) -> (r: Result<Self>)
        ensures
            wraps(content(bytes), r),
    {
        let slice: &[u8] = as_slice(&bytes);
        if slice.len() != TS_PACKET_SIZE {
            return Err(Error::InvalidPacket("expected exactly 188 bytes"));
        }
        if slice[0] != SYNC_BYTE {
            return Err(Error::InvalidPacket("missing 0x47 sync byte"));
        }
        Ok(Packet(bytes))
    }

    /// Copy a 188-byte slice into a new packet.
    pub fn from_slice(slice: &[u8]) -> (r: Result<Self>)
        ensures
            wraps(slice@, r),
    {
        Self::new(copy_of(slice))
    }

    /// The 13-bit PID this packet belongs to.
    pub fn pid(&self) -> (pid: u16)
        ensures
            pid == pid_of(self@),
            pid <= 0x1fff,
            is_packet(self@),
    {
        let slice: &[u8] = self.as_bytes();
        let high: u8 = slice[1];
        let low: u8 = slice[2];
        assert((((high & 0x1f) as u16) << 8) | (low as u16) == (high % 32) * 256 + low)
            by (bit_vector);
        (((high & 0x1f) as u16) << 8) | (low as u16)
    }

    /// The 27 MHz PCR carried in this packet's adaptation field, if any.
    pub fn pcr(&self) -> (pcr: Option<u64>)
        ensures
            pcr == pcr_of(self@),
            is_packet(self@),
    {
        read_pcr(self.as_bytes())
    }

    /// Whether this packet carries a PCR sample.
    pub fn has_pcr(&self) -> (has: bool)
        ensures
            has == pcr_of(self@) is Some,
    {
        self.pcr().is_some()
    }

    /// Borrow the raw 188 bytes.
    pub fn as_bytes(&self) -> (slice: &[u8])
        ensures
            slice@ == self@,
            is_packet(slice@),
    {
        proof {
            use_type_invariant(self);
        }
        as_slice(&self.0)
    }

    /// Consume the packet, returning the underlying [`Bytes`].
    pub fn into_bytes(self) -> (bytes: Bytes)
        ensures
            content(bytes) == self@,
            is_packet(self@),
    {
        proof {
            use_type_invariant(&self);
        }
        self.0
    }
}

impl AsRef<[u8]> for Packet {
    fn as_ref(&self) -> (slice: &[u8])
        ensures
            slice@ == self@,
    {
        self.as_bytes()
    }
}

impl TryFrom<Bytes> for Packet {
    type Error = Error;

    fn try_from(bytes: Bytes) -> (r: Result<Self>)
        ensures
            wraps(content(bytes), r),
    {
        Self::new(bytes)
    }
}

impl TryFromSpecImpl<Bytes> for Packet {
    open spec fn obeys_try_from_spec() -> bool {
        false
    }

    open spec fn try_from_spec(bytes: Bytes) -> Result<Self> {
        arbitrary()
    }
}

} // verus!
