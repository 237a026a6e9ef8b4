use mpegts_pacer::pcr::PCR_WRAP_TICKS;
use mpegts_pacer::slot::SlotMap;

// 188 * 8 * 27_000_000 / 12_000_000 = 3384 ticks per slot, exactly.
const MUX_RATE: u64 = 12_000_000;
const TICKS_PER_SLOT: u64 = 3_384;

#[test]
fn slot_and_pcr_are_inverses_on_an_exact_rate() {
    let map = SlotMap::new(MUX_RATE);
    for slot in [0_u64, 1, 7, 1_000, 1_000_000] {
        assert_eq!(map.pcr_of_slot(slot), slot * TICKS_PER_SLOT);
        assert_eq!(map.slot_of_pcr(slot * TICKS_PER_SLOT), slot);
    }
}

#[test]
fn slot_is_monotonic_and_quantises_within_one_slot() {
    // A rate that does not divide evenly is the normal case; the mapping must
    // still be monotonic, and land every PCR within one slot of the truth.
    let map = SlotMap::new(4_000_000);
    let mut previous = 0;
    for step in 0..2_000_u64 {
        let pcr = step * 7_919; // a prime step, to avoid landing on boundaries
        let slot = map.slot_of_pcr(pcr);
        assert!(slot >= previous, "slot must not go backwards");
        previous = slot;
        let error = pcr.abs_diff(map.pcr_of_slot(slot));
        let ticks_per_slot = map.pcr_of_slot(1);
        assert!(error <= ticks_per_slot, "PCR {pcr} quantised by {error} ticks");
    }
}

#[test]
fn two_maps_at_the_same_rate_agree_exactly() {
    // The property the whole design rests on: the mapping carries no state
    // from the process that built it.
    let one = SlotMap::new(4_000_000);
    let other = SlotMap::new(4_000_000);
    for pcr in [0_u64, 1, 27_000_000, 1_234_567_891, PCR_WRAP_TICKS - 1] {
        assert_eq!(one.slot_of_pcr(pcr), other.slot_of_pcr(pcr));
    }
}

#[test]
fn a_wrap_spans_a_known_number_of_slots() {
    // 2^33 * 300 * 12_000_000 / (188 * 8 * 27_000_000), rounded down.
    let map = SlotMap::new(MUX_RATE);
    assert_eq!(map.slots_per_wrap(), 761_519_024);
    assert_eq!(map.slots_per_wrap(), map.slot_of_pcr(PCR_WRAP_TICKS));
}

#[test]
fn a_zero_rate_is_read_as_one() {
    assert_eq!(SlotMap::new(0).mux_rate_bps, 1);
}
