//! Null-packet (stuffing) generation.
//!
//! When the input rate is below the target output rate, the scheduler emits null
//! packets so the transport byte clock still runs at exactly the configured
//! bitrate. Null packets carry PID `0x1FFF` and a payload of `0xFF`; their
//! continuity counter is don't-care per ISO/IEC 13818-1 (and ignored by
//! TR 101 290), so a single shared template is reused for every stuffing packet.

use vstd::prelude::*;

use crate::packet::{is_packet, pid_of};
use crate::pcr::{
    carries_pcr, law_pcr_round_trip, pcr_octets, pcr_of, pcr_ticks_at, write_pcr, PCR_WRAP_TICKS,
    SYNC_BYTE, TS_PACKET_SIZE,
};

verus! {

/// The null / stuffing PID.
pub const NULL_PID: u16 = 0x1fff;

/// Whether `b` is a packet that is not stuffing.
pub open spec fn is_content(b: Seq<u8>) -> bool {
    is_packet(b) && pid_of(b) != NULL_PID
}

/// The bytes of the standard null packet.
pub open spec fn null_bytes() -> Seq<u8> {
    Seq::new(
        TS_PACKET_SIZE as nat,
        |i: int|
            if i == 0 {
                SYNC_BYTE
            } else if i == 1 {
                0x1fu8
            } else if i == 3 {
                0x10u8
            } else {
                0xffu8
            },
    )
}

/// The bytes of an adaptation-only packet on `pid` carrying `ticks`.
pub open spec fn pcr_only_bytes(pid: u16, cc: u8, ticks: int) -> Seq<u8> {
    Seq::new(
        TS_PACKET_SIZE as nat,
        |i: int|
            if i == 0 {
                SYNC_BYTE
            } else if i == 1 {
                (pid as int / 256 % 32) as u8
            } else if i == 2 {
                (pid as int % 256) as u8
            } else if i == 3 {
                (0x20 + cc as int % 16) as u8
            } else if i == 4 {
                (TS_PACKET_SIZE - 5) as u8
            } else if i == 5 {
                0x10u8
            } else if 6 <= i < 12 {
                pcr_octets(ticks)[i - 6]
            } else {
                0xffu8
            },
    )
}

/// An adaptation-only packet on `pid` carrying `pcr_ticks` and nothing else, for
/// PCR re-insertion. Adaptation field control `10` (no payload) means the
/// continuity counter must not advance, so `cc` is set to the PID's last
/// transmitted value; the rest of the packet is `0xFF` stuffing.
pub fn pcr_only_packet(pid: u16, cc: u8, pcr_ticks: u64) -> (packet: [u8; TS_PACKET_SIZE])
    ensures
        packet@ == pcr_only_bytes(pid, cc, pcr_ticks as int),
{
    assert(((pid >> 8) as u8 & 0x1f) == pid / 256 % 32 && pid as u8 == pid % 256) by (bit_vector);
    assert(0x20 | (cc & 0x0f) == 0x20 + cc % 16) by (bit_vector);
    let mut packet: [u8; TS_PACKET_SIZE] = [0xffu8;TS_PACKET_SIZE];
    packet[0] = SYNC_BYTE;
    packet[1] = (pid >> 8) as u8 & 0x1f;
    packet[2] = pid as u8;
    packet[3] = 0x20 | (cc & 0x0f);  // adaptation field only, no payload
    packet[4] = (TS_PACKET_SIZE - 5) as u8;  // adaptation field fills the packet
    packet[5] = 0x10;  // PCR flag set
    let whole: &mut [u8] = &mut packet;
    let (head, field) = whole.split_at_mut(6);
    write_pcr(field, pcr_ticks);
    assert(packet@ =~= pcr_only_bytes(pid, cc, pcr_ticks as int));
    packet
}

/// A standard MPEG-TS null packet: sync byte `0x47`, PID `0x1FFF`, payload-only
/// (adaptation field control `01`), continuity counter `0`, `0xFF` payload.
pub fn null_packet() -> (packet: [u8; TS_PACKET_SIZE])
    ensures
        packet@ == null_bytes(),
{
    let mut packet: [u8; TS_PACKET_SIZE] = [0xffu8;TS_PACKET_SIZE];
    packet[0] = SYNC_BYTE;
    packet[1] = 0x1f;
    packet[2] = 0xff;
    packet[3] = 0x10;
    assert(packet@ =~= null_bytes());
    packet
}

/// Stuffing is on the null PID and claims no clock.
pub proof fn law_null_packet_is_stuffing()
    ensures
        pid_of(null_bytes()) == NULL_PID,
        pcr_of(null_bytes()) is None,
        null_bytes().len() == TS_PACKET_SIZE,
        null_bytes()[0] == SYNC_BYTE,
{
}

/// A re-inserted packet is on the PID asked for, carries the clock value asked for,
/// and repeats the continuity counter it was given.
pub proof fn law_pcr_only_packet_carries_its_clock(pid: u16, cc: u8, ticks: u64)
    requires
        ticks < PCR_WRAP_TICKS,
    ensures
        pid <= NULL_PID ==> pid_of(pcr_only_bytes(pid, cc, ticks as int)) == pid,
        pcr_of(pcr_only_bytes(pid, cc, ticks as int)) == Some(ticks),
        pcr_only_bytes(pid, cc, ticks as int)[3] as int % 16 == cc as int % 16,
        pcr_only_bytes(pid, cc, ticks as int).len() == TS_PACKET_SIZE,
        pcr_only_bytes(pid, cc, ticks as int)[0] == SYNC_BYTE,
{
    let b = pcr_only_bytes(pid, cc, ticks as int);
    let octets = pcr_octets(ticks as int);
    law_pcr_round_trip(ticks as int);
    assert(forall|i: int| 6 <= i < 12 ==> #[trigger] b[i] == octets[i - 6]);
    assert(pcr_ticks_at(b, 6) == pcr_ticks_at(octets, 0));
    assert(carries_pcr(b));
}

} // verus!
