//! PCR (Program Clock Reference) reading, writing, and byte-locked regeneration.
//!
//! The MPEG-TS PCR runs on a 27 MHz clock, carried in a packet's adaptation
//! field as a 33-bit base (90 kHz) plus a 9-bit extension (300 counts per base
//! tick). These helpers operate on raw 188-byte packets and never allocate.

use vstd::prelude::*;

use crate::arith::{cap, capped, lemma_exact_division, Nanos};

verus! {

/// TS packet size in bytes.
pub const TS_PACKET_SIZE: usize = 188;

/// The MPEG-TS sync byte that starts every packet.
pub const SYNC_BYTE: u8 = 0x47;

/// The PCR system clock frequency in Hz.
pub const PCR_CLOCK_HZ: u64 = 27_000_000;

/// The full 27 MHz PCR value wraps here: `2^33 * 300`.
pub const PCR_WRAP_TICKS: u64 = 2_576_980_377_600;

/// Bits carried by one 188-byte transport packet.
pub const PACKET_BITS: u64 = 1_504;

/// PCR ticks that pass while one packet goes out at one bit per second:
/// `PACKET_BITS * PCR_CLOCK_HZ`.
pub const PACKET_TICKS: u64 = 40_608_000_000;

/// A source PCR forward jump larger than this is treated as a discontinuity
/// (loop wrap / splice) rather than a real elapsed interval: five seconds.
pub const PCR_DISCONTINUITY_GAP: Nanos = 5_000_000_000;

/// The 27 MHz value held by the six PCR octets that start at `at`: a 33-bit base
/// counting 300ths, six reserved bits, and a 9-bit extension.
pub open spec fn pcr_ticks_at(b: Seq<u8>, at: int) -> int {
    let base = b[at] * 0x200_0000 + b[at + 1] * 0x2_0000 + b[at + 2] * 0x200 + b[at + 3] * 2 + b[at
        + 4] as int / 128;
    let ext = (b[at + 4] as int % 2) * 256 + b[at + 5];
    base * 300 + ext
}

/// Whether `b` is a transport packet whose adaptation field holds a PCR: the
/// field is present, long enough for the flags octet and six PCR octets, ends
/// inside the packet, and has the PCR flag set.
pub open spec fn carries_pcr(b: Seq<u8>) -> bool {
    &&& b.len() == TS_PACKET_SIZE
    &&& b[0] == SYNC_BYTE
    &&& (b[3] as int / 16) % 4 >= 2
    &&& 7 <= b[4]
    &&& 5 + b[4] <= b.len()
    &&& (b[5] as int / 16) % 2 == 1
}

/// The PCR that a packet carries, if it carries one.
pub open spec fn pcr_of(b: Seq<u8>) -> Option<u64> {
    if carries_pcr(b) {
        Some(pcr_ticks_at(b, 6) as u64)
    } else {
        None
    }
}

/// The six octets that encode a 27 MHz PCR value, reserved bits set.
pub open spec fn pcr_octets(ticks: int) -> Seq<u8> {
    let base = (ticks / 300) % 0x2_0000_0000;
    let ext = ticks % 300;
    seq![
        (base / 0x200_0000) as u8,
        (base / 0x2_0000 % 256) as u8,
        (base / 0x200 % 256) as u8,
        (base / 2 % 256) as u8,
        ((base % 2) * 128 + 0x7e + ext / 256) as u8,
        (ext % 256) as u8,
    ]
}

/// An adaptation-field flags octet with the discontinuity indicator set.
pub open spec fn flagged_octet(flags: u8) -> u8 {
    (flags as int % 128 + 128) as u8
}

/// Whether `b` is a transport packet with a non-empty adaptation field, which is
/// where the discontinuity indicator lives.
pub open spec fn has_adaptation_flags(b: Seq<u8>) -> bool {
    &&& b.len() == TS_PACKET_SIZE
    &&& b[0] == SYNC_BYTE
    &&& (b[3] as int / 16) % 4 >= 2
    &&& b[4] != 0
}

/// `b` with its PCR set to `ticks`, and the discontinuity indicator set if `flag`.
/// Every other octet is kept.
pub open spec fn restamped(b: Seq<u8>, ticks: int, flag: bool) -> Seq<u8> {
    Seq::new(
        b.len(),
        |i: int|
            if 6 <= i < 12 {
                pcr_octets(ticks)[i - 6]
            } else if i == 5 && flag {
                flagged_octet(b[5])
            } else {
                b[i]
            },
    )
}

/// Forward distance from `previous` to `current` on the wrapping PCR clock.
///
/// A field can hold slightly more than a full wrap, because nine extension bits
/// count past 299. A step back from such a value is not a distance on the clock,
/// and comes out as a number no elapsed interval reaches.
pub open spec fn pcr_distance(previous: u64, current: u64) -> u64 {
    let ahead = if current >= previous {
        current - previous
    } else {
        PCR_WRAP_TICKS - previous + current
    };
    if ahead >= 0 {
        ahead as u64
    } else {
        (ahead + 0x1_0000_0000_0000_0000) as u64
    }
}

/// How long a count of 27 MHz ticks lasts: 27 ticks to the microsecond.
pub open spec fn ticks_nanos(ticks: int) -> Nanos {
    capped(ticks * 1000 / 27) as Nanos
}

/// PCR ticks that pass while `packets` go out at `rate` bits per second.
pub open spec fn ticks_for(packets: int, rate: int) -> int {
    packets * PACKET_TICKS / rate
}

/// Whether a step of the source clock from `last` to `src` is a jump rather than
/// an elapsed interval. The first PCR has nothing to jump from.
pub open spec fn pcr_jumped(last: Option<u64>, src: u64) -> bool {
    match last {
        None => false,
        Some(l) => pcr_distance(l, src) == 0 || ticks_nanos(pcr_distance(l, src) as int)
            > PCR_DISCONTINUITY_GAP,
    }
}

/// Read the 27 MHz PCR from a packet's adaptation field, if it carries one.
pub fn read_pcr(packet: &[u8]) -> (pcr: Option<u64>)
    ensures
        pcr == pcr_of(packet@),
{
    if packet.len() != TS_PACKET_SIZE || packet[0] != SYNC_BYTE {
        return None;
    }
    let control: u8 = packet[3];
    let flags: u8 = packet[5];
    assert(((control >> 4) & 0x03) == (control / 16) % 4) by (bit_vector);
    assert((flags & 0x10 == 0) == ((flags / 16) % 2 == 0)) by (bit_vector);
    let afc: u8 = (control >> 4) & 0x03;
    if !matches!(afc, 0b10 | 0b11) {
        return None;
    }
    let af_len: usize = packet[4] as usize;
    // Need the flags octet plus the six PCR octets.
    if af_len < 7 || 5 + af_len > packet.len() {
        return None;
    }
    if flags & 0x10 == 0 {
        return None;
    }
    let p0: u8 = packet[6];
    let p1: u8 = packet[7];
    let p2: u8 = packet[8];
    let p3: u8 = packet[9];
    let p4: u8 = packet[10];
    let p5: u8 = packet[11];
    let base: u64 = ((p0 as u64) << 25) | ((p1 as u64) << 17) | ((p2 as u64) << 9) | ((p3 as u64)
        << 1) | ((p4 as u64) >> 7);
    let ext: u64 = (((p4 & 0x01) as u64) << 8) | (p5 as u64);
    assert(base == p0 * 0x200_0000 + p1 * 0x2_0000 + p2 * 0x200 + p3 * 2 + p4 / 128)
        by (bit_vector)
        requires
            base == ((p0 as u64) << 25) | ((p1 as u64) << 17) | ((p2 as u64) << 9) | ((p3 as u64)
                << 1) | ((p4 as u64) >> 7),
    ;
    assert(ext == (p4 % 2) * 256 + p5) by (bit_vector)
        requires
            ext == (((p4 & 0x01) as u64) << 8) | (p5 as u64),
    ;
    Some(base * 300 + ext)
}

/// Write a 27 MHz PCR value into the six PCR octets (the six bytes immediately
/// after the adaptation-field flags). The six reserved bits are set to `1` as
/// ISO/IEC 13818-1 requires.
pub fn write_pcr(target: &mut [u8], pcr_ticks: u64)
    requires
        old(target)@.len() >= 6,
    ensures
        final(target)@ == pcr_octets(pcr_ticks as int) + old(target)@.skip(6),
{
    let quotient: u64 = pcr_ticks / 300;
    let base: u64 = quotient & 0x1_ffff_ffff;
    let ext: u64 = pcr_ticks % 300;
    assert(base == quotient % 0x2_0000_0000) by (bit_vector)
        requires
            base == quotient & 0x1_ffff_ffff,
    ;
    assert((base >> 25) as u8 == base / 0x200_0000 && (base >> 17) as u8 == base / 0x2_0000 % 256
        && (base >> 9) as u8 == base / 0x200 % 256 && (base >> 1) as u8 == base / 2 % 256)
        by (bit_vector)
        requires
            base < 0x2_0000_0000,
    ;
    assert((((base & 0x01) as u8) << 7 | 0x7e | ((ext >> 8) as u8 & 0x01)) == (base % 2) * 128
        + 0x7e + ext / 256) by (bit_vector)
        requires
            ext < 300,
    ;
    assert(ext as u8 == ext % 256) by (bit_vector);
    target[0] = (base >> 25) as u8;
    target[1] = (base >> 17) as u8;
    target[2] = (base >> 9) as u8;
    target[3] = (base >> 1) as u8;
    target[4] = ((base & 0x01) as u8) << 7 | 0x7e | ((ext >> 8) as u8 & 0x01);
    target[5] = ext as u8;
}

/// Set the adaptation-field discontinuity_indicator bit on a packet, signalling
/// that its PCR is not continuous with the PID's previous packet. Returns `true`
/// when the bit was set (the packet has an adaptation field).
pub fn set_discontinuity_indicator(packet: &mut [u8]) -> (set: bool)
    ensures
        set == has_adaptation_flags(old(packet)@),
        final(packet)@ == (if set {
            old(packet)@.update(5, flagged_octet(old(packet)@[5]))
        } else {
            old(packet)@
        }),
{
    if packet.len() != TS_PACKET_SIZE || packet[0] != SYNC_BYTE {
        return false;
    }
    let control: u8 = packet[3];
    assert(((control >> 4) & 0x03) == (control / 16) % 4) by (bit_vector);
    let afc: u8 = (control >> 4) & 0x03;
    if !matches!(afc, 0b10 | 0b11) || packet[4] == 0 {
        return false;
    }
    let flags: u8 = packet[5];
    assert(flags | 0x80 == flags % 128 + 128) by (bit_vector);
    packet[5] = flags | 0x80;
    true
}

/// Forward distance from `previous` to `current` on the wrapping PCR clock.
pub fn forward_delta(previous: u64, current: u64) -> (delta: u64)
    ensures
        delta == pcr_distance(previous, current),
{
    if current >= previous {
        current - previous
    } else {
        PCR_WRAP_TICKS.wrapping_sub(previous).wrapping_add(current)
    }
}

/// Convert a count of 27 MHz PCR ticks to a wall-clock duration.
pub fn ticks_to_duration(ticks: u64) -> (nanos: Nanos)
    ensures
        nanos == ticks_nanos(ticks as int),
{
    cap((ticks as u128) * 1000 / 27) as Nanos
}

/// PCR ticks that pass while `packets` go out at `rate` bits per second.
fn packet_ticks(packets: u64, rate: u64) -> (ticks: u128)
    requires
        rate >= 1,
    ensures
        ticks == ticks_for(packets as int, rate as int),
        ticks <= packets * PACKET_TICKS,
{
    let bits: u128 = (packets as u128) * (PACKET_TICKS as u128);
    proof {
        vstd::arithmetic::div_mod::lemma_div_is_ordered_by_denominator(bits as int, 1, rate as int);
    }
    bits / (rate as u128)
}

/// Byte-locked PCR regenerator.
///
/// Given a target mux rate, it maps every PCR-bearing packet's *output* byte
/// position to a PCR value, so the emitted PCR tracks a perfectly constant byte
/// clock: `PCR == byte_offset * 8 * 27_000_000 / mux_rate`. It re-bases that
/// mapping on the first PCR and on a genuine source discontinuity (so the
/// PTS<->PCR relationship, and therefore the decoder buffer model, is preserved
/// across a splice or loop wrap), flagging the re-based packet with the
/// discontinuity indicator.
#[derive(Clone, Copy, Debug)]
pub struct PcrRegen {
    /// Target mux rate, in bits per second.
    pub mux_rate_bps: u64,
    /// `(output_packet_index, pcr_value)` of the most recent re-base.
    pub anchor: Option<(u64, u64)>,
    /// Last source PCR observed, used to detect discontinuities.
    pub last_src: Option<u64>,
    /// Flag the next rewritten PCR as discontinuous without moving the anchor.
    pub flag_next: bool,
}

/// The byte-locked PCR at output position `index`, counted from `anchor`.
pub open spec fn locked_pcr(anchor: (u64, u64), rate: u64, index: u64) -> u64 {
    let behind = if index >= anchor.0 {
        index - anchor.0
    } else {
        0
    };
    ((anchor.1 + ticks_for(behind, rate as int)) % PCR_WRAP_TICKS as int) as u64
}

impl PcrRegen {
    /// A rate to divide by, and an anchor on the wrapping clock.
    pub open spec fn wf(self) -> bool {
        &&& self.mux_rate_bps >= 1
        &&& self.anchor matches Some(a) ==> a.1 < PCR_WRAP_TICKS
    }

    /// Whether a packet carrying source PCR `src` moves an anchor already set.
    pub open spec fn rebases(self, src: u64) -> bool {
        self.anchor is Some && pcr_jumped(self.last_src, src)
    }

    /// The anchor in force for a packet carrying source PCR `src` at `index`.
    pub open spec fn anchor_at(self, src: u64, index: u64) -> (u64, u64) {
        match self.anchor {
            Some(a) if !pcr_jumped(self.last_src, src) => a,
            _ => (index, (src as int % PCR_WRAP_TICKS as int) as u64),
        }
    }

    /// The regenerator once a packet of bytes `b` has been rewritten at `index`.
    pub open spec fn after_rewrite(self, b: Seq<u8>, index: u64) -> PcrRegen {
        match pcr_of(b) {
            None => self,
            Some(src) => PcrRegen {
                mux_rate_bps: self.mux_rate_bps,
                anchor: Some(self.anchor_at(src, index)),
                last_src: Some(src),
                flag_next: false,
            },
        }
    }

    /// The bytes that a packet of bytes `b` is rewritten to at `index`.
    pub open spec fn rewritten(self, b: Seq<u8>, index: u64) -> Seq<u8> {
        match pcr_of(b) {
            None => b,
            Some(src) => restamped(
                b,
                locked_pcr(self.anchor_at(src, index), self.mux_rate_bps, index) as int,
                self.rebases(src) || self.flag_next,
            ),
        }
    }

    /// The regenerator once a packet of bytes `b` has been given an explicit PCR.
    pub open spec fn after_rewrite_absolute(self, b: Seq<u8>) -> PcrRegen {
        match pcr_of(b) {
            None => self,
            Some(_) => PcrRegen { flag_next: false, ..self },
        }
    }

    /// The bytes that a packet of bytes `b` takes with its PCR set to `pcr`.
    pub open spec fn rewritten_absolute(self, b: Seq<u8>, pcr: u64) -> Seq<u8> {
        match pcr_of(b) {
            None => b,
            Some(_) => restamped(b, pcr as int % PCR_WRAP_TICKS as int, self.flag_next),
        }
    }

    /// Create a regenerator for the given target mux rate (bits per second).
    pub fn new(mux_rate_bps: u64) -> (r: Self)
        ensures
            r.wf(),
            r.mux_rate_bps == (if mux_rate_bps == 0 {
                1
            } else {
                mux_rate_bps
            }),
            r.anchor is None,
            r.last_src is None,
            !r.flag_next,
    {
        PcrRegen {
            mux_rate_bps: if mux_rate_bps == 0 {
                1
            } else {
                mux_rate_bps
            },
            anchor: None,
            last_src: None,
            flag_next: false,
        }
    }

    /// Mark the next PCR-bearing packet as discontinuous, leaving the byte-locked
    /// anchor alone.
    ///
    /// Used when the *media* timeline has a hole the output clock does not: after
    /// an input stall, the emitted PCR is still byte-locked and monotonic (the
    /// output byte clock ran through the gap), but the resumed content's PTS no
    /// longer sits where the decoder's buffer model expects. Re-basing the anchor
    /// instead would step the PCR backwards by the length of the outage, which no
    /// IRD absorbs cleanly; the discontinuity indicator says the same thing
    /// without breaking the clock.
    pub fn flag_discontinuity(&mut self)
        ensures
            *final(self) == (PcrRegen { flag_next: true, ..*old(self) }),
    {
        self.flag_next = true;
    }

    /// Rewrite the PCR carried by `packet` (which sits at output byte position
    /// `output_index`) to its byte-locked value, in place. A no-op on a packet
    /// with no PCR. Returns `true` if this packet re-based the anchor (a genuine
    /// source discontinuity), so the caller can bump the re-base stat. The
    /// discontinuity indicator is set on a re-base and on a pending
    /// [`flag_discontinuity`](PcrRegen::flag_discontinuity).
    pub fn rewrite(&mut self, packet: &mut [u8], output_index: u64) -> (rebased: bool)
        requires
            old(self).wf(),
        ensures
            final(self).wf(),
            *final(self) == old(self).after_rewrite(old(packet)@, output_index),
            final(packet)@ == old(self).rewritten(old(packet)@, output_index),
            rebased == (pcr_of(old(packet)@) matches Some(src) && old(self).rebases(src)),
    {
        let ghost before = packet@;
        let src: u64 = match read_pcr(packet) {
            Some(src) => src,
            None => {
                return false;
            },
        };
        let jumped: bool = match self.last_src {
            None => false,
            Some(last) => {
                let delta: u64 = forward_delta(last, src);
                delta == 0 || ticks_to_duration(delta) > PCR_DISCONTINUITY_GAP
            },
        };
        let rebased: bool = self.anchor.is_some() && jumped;
        let anchor: (u64, u64) = match self.anchor {
            Some(kept) if !jumped => kept,
            _ => (output_index, src % PCR_WRAP_TICKS),
        };
        self.last_src = Some(src);
        self.anchor = Some(anchor);

        let pcr_out: u64 = locked_from(anchor, self.mux_rate_bps, output_index);
        // A re-base and a flagged media hole are the same signal downstream; only
        // a re-base is a source discontinuity the caller counts.
        let flag: bool = rebased || self.flag_next;
        self.flag_next = false;
        restamp(packet, pcr_out, flag);
        rebased
    }

    /// Rewrite a packet's PCR to an explicitly supplied value.
    ///
    /// For stream clocking, where the value comes from the output slot rather
    /// than from an anchor this regenerator maintains. There is no re-base to
    /// report: the mapping carries no history, so a source discontinuity moves
    /// the grid rather than the anchor. The pending
    /// [`flag_discontinuity`](PcrRegen::flag_discontinuity) still applies, since
    /// the *media* timeline can have a hole the output clock does not.
    pub fn rewrite_absolute(&mut self, packet: &mut [u8], pcr: u64)
        ensures
            old(self).wf() ==> final(self).wf(),
            *final(self) == old(self).after_rewrite_absolute(old(packet)@),
            final(packet)@ == old(self).rewritten_absolute(old(packet)@, pcr),
    {
        if read_pcr(packet).is_none() {
            return;
        }
        let flag: bool = self.flag_next;
        self.flag_next = false;
        restamp(packet, pcr % PCR_WRAP_TICKS, flag);
    }

    /// The byte-locked PCR for a synthetic packet at `output_index`, using the
    /// current anchor without disturbing the regenerator's state. Used for PCR
    /// re-insertion. `None` before the first real PCR has set the anchor.
    pub fn locked_for_index(&self, output_index: u64) -> (pcr: Option<u64>)
        requires
            self.wf(),
        ensures
            pcr == (match self.anchor {
                None => None,
                Some(a) => Some(locked_pcr(a, self.mux_rate_bps, output_index)),
            }),
    {
        match self.anchor {
            None => None,
            Some(anchor) => Some(locked_from(anchor, self.mux_rate_bps, output_index)),
        }
    }
}

/// The byte-locked PCR at output position `index`, counted from `anchor`.
fn locked_from(anchor: (u64, u64), rate: u64, index: u64) -> (pcr: u64)
    requires
        rate >= 1,
    ensures
        pcr == locked_pcr(anchor, rate, index),
        pcr < PCR_WRAP_TICKS,
{
    let ticks: u128 = packet_ticks(index.saturating_sub(anchor.0), rate);
    let wrapped: u128 = (anchor.1 as u128 + ticks) % (PCR_WRAP_TICKS as u128);
    wrapped as u64
}

/// Rewrite the PCR octets of a PCR-bearing packet, and set the discontinuity
/// indicator when `flag` is true.
fn restamp(packet: &mut [u8], ticks: u64, flag: bool)
    requires
        carries_pcr(old(packet)@),
    ensures
        final(packet)@ == restamped(old(packet)@, ticks as int, flag),
{
    let ghost before = packet@;
    let (head, field) = packet.split_at_mut(6);
    write_pcr(field, ticks);
    let ghost stamped = packet@;
    assert(stamped =~= restamped(before, ticks as int, false));
    set_discontinuity_indicator_if(packet, flag);
    assert(packet@ =~= restamped(before, ticks as int, flag));
}

/// Set the discontinuity indicator only when `flag` is true.
fn set_discontinuity_indicator_if(packet: &mut [u8], flag: bool)
    ensures
        final(packet)@ == (if flag && has_adaptation_flags(old(packet)@) {
            old(packet)@.update(5, flagged_octet(old(packet)@[5]))
        } else {
            old(packet)@
        }),
{
    if flag {
        set_discontinuity_indicator(packet);
    }
}

/// Writing a PCR value and reading it back gives the value on the wrapping clock.
pub proof fn law_pcr_round_trip(ticks: int)
    requires
        ticks >= 0,
    ensures
        pcr_ticks_at(pcr_octets(ticks), 0) == ticks % PCR_WRAP_TICKS as int,
        ticks < PCR_WRAP_TICKS ==> pcr_ticks_at(pcr_octets(ticks), 0) == ticks,
{
    let base = (ticks / 300) % 0x2_0000_0000;
    let ext = ticks % 300;
    let octets = pcr_octets(ticks);
    lemma_base_from_its_octets(base);
    assert(octets[4] as int / 128 == base % 2 && octets[4] as int % 2 == ext / 256) by {
        assert(0 <= ext / 256 <= 1);
        assert(octets[4] == (base % 2) * 128 + 0x7e + ext / 256);
    }
    assert(ext == ext / 256 * 256 + ext % 256);
    lemma_base_and_extension(ticks);
}

/// The 33-bit base is the sum of the parts that its octets carry.
proof fn lemma_base_from_its_octets(base: int)
    requires
        0 <= base < 0x2_0000_0000,
    ensures
        base == (base / 0x200_0000) * 0x200_0000 + (base / 0x2_0000 % 256) * 0x2_0000 + (base
            / 0x200 % 256) * 0x200 + (base / 2 % 256) * 2 + base % 2,
        0 <= base / 0x200_0000 < 256,
{
    assert(base == base / 2 * 2 + base % 2);
    assert(base / 2 == base / 0x200 * 256 + base / 2 % 256);
    assert(base / 0x200 == base / 0x2_0000 * 256 + base / 0x200 % 256);
    assert(base / 0x2_0000 == base / 0x200_0000 * 256 + base / 0x2_0000 % 256);
}

/// A 27 MHz count on the wrapping clock is its 90 kHz base and its extension.
proof fn lemma_base_and_extension(ticks: int)
    requires
        ticks >= 0,
    ensures
        ticks % PCR_WRAP_TICKS as int == (ticks / 300) % 0x2_0000_0000 * 300 + ticks % 300,
        ticks < PCR_WRAP_TICKS ==> ticks % PCR_WRAP_TICKS as int == ticks,
{
    let high = ticks / 300;
    let wraps = high / 0x2_0000_0000;
    let rest = high % 0x2_0000_0000 * 300 + ticks % 300;
    assert(ticks == wraps * PCR_WRAP_TICKS + rest);
    vstd::arithmetic::div_mod::lemma_fundamental_div_mod_converse(
        ticks,
        PCR_WRAP_TICKS as int,
        wraps,
        rest,
    );
    if ticks < PCR_WRAP_TICKS {
        vstd::arithmetic::div_mod::lemma_small_mod(ticks as nat, PCR_WRAP_TICKS as nat);
    }
}

/// A restamped packet carries the PCR it was given, and no octet outside the PCR
/// field and the flags octet has changed.
pub proof fn law_restamp_touches_only_the_clock(b: Seq<u8>, ticks: int, flag: bool)
    requires
        carries_pcr(b),
        0 <= ticks < PCR_WRAP_TICKS,
    ensures
        pcr_of(restamped(b, ticks, flag)) == Some(ticks as u64),
        restamped(b, ticks, flag).len() == b.len(),
        forall|i: int|
            0 <= i < b.len() && !(5 <= i < 12) ==> #[trigger] restamped(b, ticks, flag)[i] == b[i],
        !flag ==> restamped(b, ticks, flag)[5] == b[5],
{
    law_pcr_round_trip(ticks);
    let r = restamped(b, ticks, flag);
    let octets = pcr_octets(ticks);
    assert(forall|i: int| 6 <= i < 12 ==> #[trigger] r[i] == octets[i - 6]);
    assert(pcr_ticks_at(r, 6) == pcr_ticks_at(octets, 0));
    let flags = b[5];
    assert((flags as int % 128 + 128) / 16 % 2 == flags as int / 16 % 2);
}

/// Distance is what has to be added, on the wrapping clock, to get from one PCR to
/// the other.
pub proof fn law_distance_reaches_the_target(previous: u64, current: u64)
    requires
        previous < PCR_WRAP_TICKS,
        current < PCR_WRAP_TICKS,
    ensures
        (previous + pcr_distance(previous, current)) % PCR_WRAP_TICKS as int == current,
        pcr_distance(previous, current) < PCR_WRAP_TICKS,
{
    if current < previous {
        assert(previous + pcr_distance(previous, current) == PCR_WRAP_TICKS + current);
        vstd::arithmetic::div_mod::lemma_mod_add_multiples_vanish(
            current as int,
            PCR_WRAP_TICKS as int,
        );
    }
    vstd::arithmetic::div_mod::lemma_small_mod(current as nat, PCR_WRAP_TICKS as nat);
}

/// The regenerated clock is locked to bytes: between two output positions it
/// advances by the time those bytes take at the mux rate, to within the one tick
/// that whole numbers leave.
pub proof fn law_clock_advances_with_bytes(from: int, to: int, rate: int)
    requires
        0 <= from <= to,
        rate >= 1,
    ensures
        ticks_for(to - from, rate) <= ticks_for(to, rate) - ticks_for(from, rate) <= ticks_for(
            to - from,
            rate,
        ) + 1,
        PACKET_TICKS as int % rate == 0 ==> ticks_for(to, rate) - ticks_for(from, rate) == (to
            - from) * (PACKET_TICKS as int / rate),
{
    let k = PACKET_TICKS as int;
    let n = to - from;
    assert(to * k == from * k + n * k) by (nonlinear_arith)
        requires
            n == to - from,
    ;
    lemma_floor_of_sum(from * k, n * k, rate);
    if k % rate == 0 {
        let t = k / rate;
        vstd::arithmetic::div_mod::lemma_fundamental_div_mod(k, rate);
        assert(to * k == (to * t) * rate && from * k == (from * t) * rate) by (nonlinear_arith)
            requires
                k == rate * t,
        ;
        lemma_exact_division(to * t, rate);
        lemma_exact_division(from * t, rate);
        assert(to * t - from * t == (to - from) * t) by (nonlinear_arith);
    }
}

/// Between two output positions of one anchor the regenerated PCR moves by exactly
/// the ticks that the bytes between them take, on the wrapping clock.
pub proof fn law_regenerated_pcr_is_byte_locked(
    anchor: (u64, u64),
    rate: u64,
    index: u64,
    later: u64,
)
    requires
        rate >= 1,
        anchor.0 <= index <= later,
    ensures
        (locked_pcr(anchor, rate, index) + (ticks_for(later - anchor.0, rate as int) - ticks_for(
            index - anchor.0,
            rate as int,
        ))) % PCR_WRAP_TICKS as int == locked_pcr(anchor, rate, later),
{
    let w = PCR_WRAP_TICKS as int;
    let here = anchor.1 + ticks_for(index - anchor.0, rate as int);
    let there = anchor.1 + ticks_for(later - anchor.0, rate as int);
    vstd::arithmetic::div_mod::lemma_mod_bound(here, w);
    vstd::arithmetic::div_mod::lemma_mod_bound(there, w);
    vstd::arithmetic::div_mod::lemma_add_mod_noop(here, there - here, w);
    vstd::arithmetic::div_mod::lemma_add_mod_noop(here % w, there - here, w);
    vstd::arithmetic::div_mod::lemma_mod_twice(here, w);
}

/// Whole-number division of a sum is the sum of the divisions, or one more.
pub proof fn lemma_floor_of_sum(a: int, b: int, d: int)
    requires
        d >= 1,
    ensures
        a / d + b / d <= (a + b) / d <= a / d + b / d + 1,
{
    vstd::arithmetic::div_mod::lemma_fundamental_div_mod(a, d);
    vstd::arithmetic::div_mod::lemma_fundamental_div_mod(b, d);
    let q = a / d + b / d;
    let r = a % d + b % d;
    assert(a + b == q * d + r) by (nonlinear_arith)
        requires
            a == d * (a / d) + a % d,
            b == d * (b / d) + b % d,
            q == a / d + b / d,
            r == a % d + b % d,
    ;
    if r < d {
        vstd::arithmetic::div_mod::lemma_fundamental_div_mod_converse(a + b, d, q, r);
    } else {
        assert(a + b == (q + 1) * d + (r - d)) by (nonlinear_arith)
            requires
                a + b == q * d + r,
        ;
        vstd::arithmetic::div_mod::lemma_fundamental_div_mod_converse(a + b, d, q + 1, r - d);
    }
}

/// A source PCR up to five seconds ahead of the one before it is a step, not a
/// splice: the anchor stays, nothing is reported, the flags octet is left as it
/// came, and the PCR written is the anchor's plus the ticks that the packets since
/// then take at the mux rate.
///
/// Five seconds are 135 million ticks of the 27 MHz clock, which wraps at
/// 2^33 * 300.
pub proof fn law_a_step_keeps_the_anchor(
    regen: PcrRegen,
    b: Seq<u8>,
    index: u64,
    anchor: (u64, u64),
    previous: u64,
    src: u64,
)
    requires
        regen.mux_rate_bps >= 1,
        regen.anchor == Some(anchor),
        regen.last_src == Some(previous),
        pcr_of(b) == Some(src),
        previous < 2_576_980_377_600,
        src < 2_576_980_377_600,
        0 < (src - previous) % 2_576_980_377_600 <= 135_000_000,
        anchor.0 <= index,
    ensures
        !regen.rebases(src),
        regen.after_rewrite(b, index).anchor == Some(anchor),
        regen.after_rewrite(b, index).last_src == Some(src),
        !regen.after_rewrite(b, index).flag_next,
        regen.after_rewrite(b, index).mux_rate_bps == regen.mux_rate_bps,
        !regen.flag_next ==> regen.rewritten(b, index)[5] == b[5],
        pcr_of(regen.rewritten(b, index)) == Some(
            ((anchor.1 + (index - anchor.0) * 1504 * 27_000_000 / regen.mux_rate_bps as int)
                % 2_576_980_377_600) as u64,
        ),
{
    lemma_distance_is_a_difference(previous, src);
    let step = pcr_distance(previous, src) as int;
    assert(step * 1000 / 27 <= 5_000_000_000);
    let written = locked_pcr(anchor, regen.mux_rate_bps, index);
    assert((index - anchor.0) * 1504 * 27_000_000 == (index - anchor.0) * PACKET_TICKS);
    vstd::arithmetic::div_mod::lemma_div_pos_is_pos(
        (index - anchor.0) * PACKET_TICKS,
        regen.mux_rate_bps as int,
    );
    vstd::arithmetic::div_mod::lemma_mod_bound(
        anchor.1 + ticks_for(index - anchor.0, regen.mux_rate_bps as int),
        PCR_WRAP_TICKS as int,
    );
    law_restamp_touches_only_the_clock(b, written as int, regen.flag_next);
}

/// A source PCR that stands still, or is more than five seconds ahead, is a splice:
/// the packet goes out with the source's own value, flagged, and the anchor moves to
/// it.
pub proof fn law_a_splice_moves_the_anchor(
    regen: PcrRegen,
    b: Seq<u8>,
    index: u64,
    previous: u64,
    src: u64,
)
    requires
        regen.anchor is Some,
        regen.last_src == Some(previous),
        pcr_of(b) == Some(src),
        previous < 2_576_980_377_600,
        src < 2_576_980_377_600,
        (src - previous) % 2_576_980_377_600 == 0 || (src - previous) % 2_576_980_377_600
            > 135_000_000,
        regen.mux_rate_bps >= 1,
    ensures
        regen.rebases(src),
        regen.after_rewrite(b, index).anchor == Some((index, src)),
        regen.after_rewrite(b, index).last_src == Some(src),
        !regen.after_rewrite(b, index).flag_next,
        regen.rewritten(b, index)[5] as int == 128 + b[5] as int % 128,
        pcr_of(regen.rewritten(b, index)) == Some(src),
{
    lemma_distance_is_a_difference(previous, src);
    let step = pcr_distance(previous, src) as int;
    if step != 0 {
        assert(step * 1000 / 27 > 5_000_000_000);
    }
    lemma_anchored_here(src, regen.mux_rate_bps, index);
    law_restamp_touches_only_the_clock(b, src as int, true);
}

/// The first PCR goes out as it came: it sets the anchor, and is neither flagged nor
/// reported as a splice.
pub proof fn law_the_first_pcr_is_kept(regen: PcrRegen, b: Seq<u8>, index: u64, src: u64)
    requires
        regen.anchor is None,
        pcr_of(b) == Some(src),
        src < 2_576_980_377_600,
        regen.mux_rate_bps >= 1,
    ensures
        !regen.rebases(src),
        regen.after_rewrite(b, index).anchor == Some((index, src)),
        regen.after_rewrite(b, index).last_src == Some(src),
        !regen.flag_next ==> regen.rewritten(b, index)[5] == b[5],
        pcr_of(regen.rewritten(b, index)) == Some(src),
{
    lemma_anchored_here(src, regen.mux_rate_bps, index);
    law_restamp_touches_only_the_clock(b, src as int, regen.flag_next);
}

/// Two PCRs in a row, the source's second up to five seconds ahead of its first: the
/// two values written differ, on the wrapping clock, by the ticks that the packets
/// between them take at the mux rate, to within the one tick that whole numbers
/// leave.
pub proof fn law_pcrs_in_a_row_are_as_far_apart_as_their_packets(
    regen: PcrRegen,
    one: Seq<u8>,
    here: u64,
    other: Seq<u8>,
    there: u64,
    from: u64,
    to: u64,
)
    requires
        regen.wf(),
        pcr_of(one) == Some(from),
        pcr_of(other) == Some(to),
        from < 2_576_980_377_600,
        to < 2_576_980_377_600,
        0 < (to - from) % 2_576_980_377_600 <= 135_000_000,
        here <= there,
        regen.anchor matches Some(anchor) ==> anchor.0 <= here,
    ensures
        ({
            let later = regen.after_rewrite(one, here);
            let ticks = (there - here) * 1504 * 27_000_000 / regen.mux_rate_bps as int;
            &&& !later.rebases(to)
            &&& later.after_rewrite(other, there).anchor == later.anchor
            &&& later.rewritten(other, there)[5] == other[5]
            &&& pcr_of(regen.rewritten(one, here)) matches Some(first)
            &&& pcr_of(later.rewritten(other, there)) matches Some(second)
            &&& second == (first + ticks) % 2_576_980_377_600 || second == (first + ticks + 1)
                % 2_576_980_377_600
        }),
{
    let rate = regen.mux_rate_bps as int;
    let later = regen.after_rewrite(one, here);
    let anchor = regen.anchor_at(from, here);
    let w = PCR_WRAP_TICKS as int;
    law_a_step_keeps_the_anchor(later, other, there, anchor, from, to);
    let first = locked_pcr(anchor, regen.mux_rate_bps, here);
    let second = locked_pcr(anchor, regen.mux_rate_bps, there);
    let before = ticks_for(here - anchor.0, rate);
    let after = ticks_for(there - anchor.0, rate);
    let ticks = ticks_for(there - here, rate);
    vstd::arithmetic::div_mod::lemma_div_pos_is_pos((here - anchor.0) * PACKET_TICKS, rate);
    vstd::arithmetic::div_mod::lemma_mod_bound(anchor.1 + before, w);
    law_restamp_touches_only_the_clock(
        one,
        first as int,
        regen.rebases(from) || regen.flag_next,
    );
    law_clock_advances_with_bytes(here - anchor.0, there - anchor.0, rate);
    assert((there - anchor.0) - (here - anchor.0) == there - here);
    law_regenerated_pcr_is_byte_locked(anchor, regen.mux_rate_bps, here, there);
    assert(after - before == ticks || after - before == ticks + 1);
}

/// An explicit PCR is written as it was given, on the wrapping clock, and the flags
/// octet is touched only where a flag was asked for.
pub proof fn law_an_explicit_pcr_is_written_as_given(regen: PcrRegen, b: Seq<u8>, pcr: u64)
    requires
        carries_pcr(b),
    ensures
        pcr_of(regen.rewritten_absolute(b, pcr)) == Some((pcr as int % 2_576_980_377_600) as u64),
        !regen.flag_next ==> regen.rewritten_absolute(b, pcr)[5] == b[5],
        regen.flag_next ==> regen.rewritten_absolute(b, pcr)[5] as int == 128 + b[5] as int % 128,
        regen.after_rewrite_absolute(b) == (PcrRegen { flag_next: false, ..regen }),
{
    vstd::arithmetic::div_mod::lemma_mod_bound(pcr as int, PCR_WRAP_TICKS as int);
    law_restamp_touches_only_the_clock(b, pcr as int % PCR_WRAP_TICKS as int, regen.flag_next);
}

/// On the wrapping clock the distance is the difference.
pub proof fn lemma_distance_is_a_difference(previous: u64, current: u64)
    requires
        previous < PCR_WRAP_TICKS,
        current < PCR_WRAP_TICKS,
    ensures
        pcr_distance(previous, current) == (current - previous) % PCR_WRAP_TICKS as int,
{
    let w = PCR_WRAP_TICKS as int;
    if current < previous {
        vstd::arithmetic::div_mod::lemma_mod_add_multiples_vanish(current - previous, w);
        vstd::arithmetic::div_mod::lemma_small_mod((w + current - previous) as nat, w as nat);
    } else {
        vstd::arithmetic::div_mod::lemma_small_mod((current - previous) as nat, w as nat);
    }
}

/// At the anchor's own position the byte-locked PCR is the anchor's.
proof fn lemma_anchored_here(src: u64, rate: u64, index: u64)
    requires
        src < PCR_WRAP_TICKS,
        rate >= 1,
    ensures
        src as int % PCR_WRAP_TICKS as int == src,
        locked_pcr((index, src), rate, index) == src,
{
    vstd::arithmetic::div_mod::lemma_small_mod(src as nat, PCR_WRAP_TICKS as nat);
    vstd::arithmetic::div_mod::lemma_div_of0(rate as int);
}

/// A PCR field is six octets: the 90 kHz count in the first thirty-three bits, six bits
/// of ones, and what is over, in 27 MHz ticks, in the last nine.
pub proof fn law_a_pcr_field_is_laid_out(ticks: int)
    requires
        ticks >= 0,
    ensures
        ({
            let o = pcr_octets(ticks);
            &&& o.len() == 6
            &&& o[0] * 33_554_432 + o[1] * 131_072 + o[2] * 512 + o[3] * 2 + o[4] as int / 128
                == ticks / 300 % 8_589_934_592
            &&& o[4] as int / 2 % 64 == 63
            &&& (o[4] as int % 2) * 256 + o[5] == ticks % 300
        }),
{
    let base = (ticks / 300) % 0x2_0000_0000;
    let ext = ticks % 300;
    lemma_base_from_its_octets(base);
    let last = (base % 2) * 128 + 0x7e + ext / 256;
    assert(0 <= ext / 256 <= 1);
    assert(last / 128 == base % 2 && last % 2 == ext / 256 && last / 2 % 64 == 63);
}

/// A packet has a PCR where its adaptation field is there, is long enough for one, stays
/// inside the packet and says so; it is read from the six octets behind the flags.
pub proof fn law_where_a_pcr_is_read(b: Seq<u8>)
    requires
        b.len() == 188,
    ensures
        pcr_of(b) is Some <==> b[0] == 0x47 && (b[3] as int / 32) % 2 == 1 && 7 <= b[4] <= 183
            && (b[5] as int / 16) % 2 == 1,
        pcr_of(b) matches Some(pcr) ==> pcr == 300 * (b[6] * 33_554_432 + b[7] * 131_072 + b[8]
            * 512 + b[9] * 2 + b[10] as int / 128) + (b[10] as int % 2) * 256 + b[11],
{
}

/// Twenty-seven ticks are a microsecond: a count of ticks is as many whole nanoseconds.
pub proof fn law_ticks_are_a_27th_of_a_microsecond(ticks: u64)
    requires
        ticks <= 0x100_0000_0000_0000,
    ensures
        ticks_nanos(ticks as int) * 27 <= ticks * 1000,
        ticks * 1000 < (ticks_nanos(ticks as int) + 1) * 27,
{
}

} // verus!
