//! The absolute output slot grid: where a packet goes, as a function of the
//! stream rather than of when it arrived.
//!
//! A pacer that decides *what* to transmit from its own emit clock cannot be run
//! twice with the same answer. Two groomers fed the same objects over independent
//! paths interleave content and stuffing differently, so their outputs are
//! different transports rather than one transport sent twice, which is why an
//! ST 2022-7 receiver cannot merge them.
//!
//! The fix is to make every output position a function of the delivered bytes. At
//! a locked mux rate, output packet `n` occupies a known instant on the transport
//! byte clock, so the mapping between a 27 MHz PCR value and an output packet
//! index is fixed:
//!
//! ```text
//! slot_of_pcr(P) = P * mux_rate / (188 * 8 * 27_000_000)
//! pcr_of_slot(n) = n * 188 * 8 * 27_000_000 / mux_rate
//! ```
//!
//! Nothing here depends on when the pacer started, how long its buffer is, or how
//! the OS scheduled it: two pacers that see the same PCR compute the same slot, and
//! a pacer that joins late lands on the grid the running one is already using.
//!
//! `pcr_of_slot` is also the emitted PCR, so PCR-against-byte-position is exact by
//! construction rather than anchored on whichever PCR happened to arrive first.

use vstd::prelude::*;

use crate::arith::{lemma_exact_division, low64, product};
use crate::pcr::{PACKET_TICKS, PCR_WRAP_TICKS};

verus! {

/// The output slot, before it is narrowed, of 27 MHz value `pcr` at `rate` bits
/// per second.
pub open spec fn slot_at(pcr: int, rate: int) -> int {
    pcr * rate / PACKET_TICKS as int
}

/// The 27 MHz value, before it wraps, at which slot `slot` goes out at `rate` bits
/// per second.
pub open spec fn ticks_at(slot: int, rate: int) -> int {
    slot * PACKET_TICKS / rate
}

/// The fixed mapping between source PCR values and output packet indices at one
/// locked mux rate.
#[derive(Clone, Copy, Debug)]
pub struct SlotMap {
    /// The locked mux rate, in bits per second.
    pub mux_rate_bps: u64,
}

impl SlotMap {
    /// There is a rate to divide by.
    pub open spec fn wf(self) -> bool {
        self.mux_rate_bps >= 1
    }

    /// The slot of a PCR value, counted in sixty-four bits.
    pub open spec fn slot(self, pcr: u64) -> u64 {
        (slot_at(pcr as int, self.mux_rate_bps as int) % 0x1_0000_0000_0000_0000) as u64
    }

    /// The PCR value of a slot, on the wrapping clock.
    pub open spec fn pcr(self, slot: u64) -> u64 {
        (ticks_at(slot as int, self.mux_rate_bps as int) % PCR_WRAP_TICKS as int) as u64
    }

    /// Build the mapping for a locked mux rate (bits per second).
    pub fn new(mux_rate_bps: u64) -> (r: Self)
        ensures
            r.wf(),
            r.mux_rate_bps == (if mux_rate_bps == 0 {
                1
            } else {
                mux_rate_bps
            }),
    {
        SlotMap {
            mux_rate_bps: if mux_rate_bps == 0 {
                1
            } else {
                mux_rate_bps
            },
        }
    }

    /// The output slot a packet carrying 27 MHz PCR value `pcr` belongs in.
    pub fn slot_of_pcr(&self, pcr: u64) -> (slot: u64)
        ensures
            slot == self.slot(pcr),
    {
        let numerator: u128 = product(pcr, self.mux_rate_bps);
        low64(numerator / (PACKET_TICKS as u128))
    }

    /// The byte-locked 27 MHz PCR value for output slot `slot`.
    pub fn pcr_of_slot(&self, slot: u64) -> (pcr: u64)
        requires
            self.wf(),
        ensures
            pcr == self.pcr(slot),
            pcr < PCR_WRAP_TICKS,
    {
        let ticks: u128 = (slot as u128) * (PACKET_TICKS as u128) / (self.mux_rate_bps as u128);
        (ticks % (PCR_WRAP_TICKS as u128)) as u64
    }

    /// How many slots one full PCR wrap spans, so a stream that runs past the
    /// 33-bit wrap keeps a monotonic slot index.
    pub fn slots_per_wrap(&self) -> (slots: u64)
        ensures
            slots == self.slot(PCR_WRAP_TICKS),
    {
        self.slot_of_pcr(PCR_WRAP_TICKS)
    }
}

/// A later PCR never maps to an earlier slot.
pub proof fn law_slots_are_monotonic(p: int, q: int, rate: int)
    requires
        0 <= p <= q,
        rate >= 1,
    ensures
        0 <= slot_at(p, rate) <= slot_at(q, rate),
{
    assert(0 <= p * rate <= q * rate) by (nonlinear_arith)
        requires
            0 <= p <= q,
            rate >= 1,
    ;
    vstd::arithmetic::div_mod::lemma_div_is_ordered(p * rate, q * rate, PACKET_TICKS as int);
    vstd::arithmetic::div_mod::lemma_div_pos_is_pos(p * rate, PACKET_TICKS as int);
}

/// A slot quantises the PCR that chose it to within one slot: the slot's own clock
/// value is not past the PCR, and the next slot's is.
pub proof fn law_slot_is_within_one_of_its_pcr(pcr: int, rate: int)
    requires
        pcr >= 0,
        rate >= 1,
    ensures
        ticks_at(slot_at(pcr, rate), rate) <= pcr,
        pcr <= ticks_at(slot_at(pcr, rate) + 1, rate),
{
    let k = PACKET_TICKS as int;
    let slot = slot_at(pcr, rate);
    vstd::arithmetic::div_mod::lemma_fundamental_div_mod(pcr * rate, k);
    vstd::arithmetic::div_mod::lemma_mod_bound(pcr * rate, k);
    assert(slot * k <= pcr * rate);
    assert(pcr * rate <= (slot + 1) * k) by (nonlinear_arith)
        requires
            pcr * rate == k * slot + (pcr * rate) % k,
            (pcr * rate) % k < k,
    ;
    vstd::arithmetic::div_mod::lemma_div_is_ordered(slot * k, pcr * rate, rate);
    vstd::arithmetic::div_mod::lemma_div_is_ordered(pcr * rate, (slot + 1) * k, rate);
    lemma_exact_division(pcr, rate);
}

/// Where the rate divides the clock exactly, slot and PCR are inverses.
pub proof fn law_slot_and_pcr_are_inverses_on_an_exact_rate(slot: int, rate: int)
    requires
        slot >= 0,
        rate >= 1,
        PACKET_TICKS as int % rate == 0,
    ensures
        ticks_at(slot, rate) == slot * (PACKET_TICKS as int / rate),
        slot_at(ticks_at(slot, rate), rate) == slot,
{
    let k = PACKET_TICKS as int;
    let t = k / rate;
    vstd::arithmetic::div_mod::lemma_fundamental_div_mod(k, rate);
    assert(slot * k == (slot * t) * rate) by (nonlinear_arith)
        requires
            k == rate * t,
    ;
    lemma_exact_division(slot * t, rate);
    lemma_exact_division(slot, k);
}

/// The mapping carries no state from the process that built it: two maps at the
/// same rate agree on every slot and every PCR.
pub proof fn law_maps_at_one_rate_agree(one: SlotMap, other: SlotMap, pcr: u64, slot: u64)
    requires
        one.mux_rate_bps == other.mux_rate_bps,
    ensures
        one.slot(pcr) == other.slot(pcr),
        one.pcr(slot) == other.pcr(slot),
{
}

} // verus!
