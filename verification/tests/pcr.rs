use mpegts_pacer::pcr::{
    forward_delta, read_pcr, set_discontinuity_indicator, ticks_to_duration, write_pcr, PcrRegen,
    PCR_CLOCK_HZ, PCR_WRAP_TICKS, TS_PACKET_SIZE,
};

fn pcr_packet(pcr_ticks: u64) -> [u8; TS_PACKET_SIZE] {
    let mut p = [0xff_u8; TS_PACKET_SIZE];
    p[0] = 0x47;
    p[1] = 0x01;
    p[2] = 0x00;
    p[3] = 0x30; // adaptation + payload
    p[4] = 7; // adaptation field length
    p[5] = 0x10; // PCR flag, discontinuity clear
    write_pcr(&mut p[6..12], pcr_ticks);
    p
}

#[test]
fn round_trips_pcr_value() {
    for ticks in [0, 1, 300, 900_000, PCR_CLOCK_HZ, PCR_WRAP_TICKS - 1] {
        let p = pcr_packet(ticks);
        assert_eq!(read_pcr(&p), Some(ticks), "ticks={ticks}");
    }
}

#[test]
fn no_pcr_when_flag_absent() {
    let mut p = pcr_packet(123);
    p[5] = 0x00; // clear PCR flag
    assert_eq!(read_pcr(&p), None);
}

#[test]
fn forward_delta_handles_wrap() {
    assert_eq!(forward_delta(PCR_WRAP_TICKS - 10, 20), 30);
    assert_eq!(forward_delta(5, 25), 20);
}

#[test]
fn byte_locks_pcr_to_the_mux_rate() {
    // 188 * 8 * 27_000_000 / 12_000_000 = 3384 ticks per packet (exact).
    let mut regen = PcrRegen::new(12_000_000);
    let mut a = pcr_packet(100_000);
    assert!(!regen.rewrite(&mut a, 0));
    assert_eq!(read_pcr(&a), Some(100_000), "first PCR keeps its source value");

    let mut b = pcr_packet(999_999);
    assert!(!regen.rewrite(&mut b, 7));
    assert_eq!(
        read_pcr(&b).unwrap() - read_pcr(&a).unwrap(),
        7 * 3_384,
        "PCR advances by exactly the byte distance at the mux rate"
    );
}

#[test]
fn rebases_and_flags_on_source_discontinuity() {
    let mut regen = PcrRegen::new(12_000_000);
    let mut a = pcr_packet(PCR_CLOCK_HZ); // t = 1 s
    regen.rewrite(&mut a, 0);
    assert!(a[5] & 0x80 == 0, "stream start is not a discontinuity");

    // A large backward jump (loop wrap) re-bases to the new source epoch and
    // flags the discontinuity indicator.
    let mut b = pcr_packet(123_456);
    assert!(regen.rewrite(&mut b, 7));
    assert_eq!(read_pcr(&b), Some(123_456), "PCR re-bases to the new source value");
    assert!(b[5] & 0x80 != 0, "re-base sets the discontinuity indicator");
}

#[test]
fn rewrite_preserves_non_pcr_bytes() {
    let mut regen = PcrRegen::new(12_000_000);
    let original = pcr_packet(555);
    let mut p = original;
    regen.rewrite(&mut p, 3);
    for (i, (before, after)) in original.iter().zip(p.iter()).enumerate() {
        // Only the flags octet (discontinuity bit) and the six PCR octets may change.
        if (5..12).contains(&i) {
            continue;
        }
        assert_eq!(before, after, "non-PCR byte {i} must be unchanged");
    }
}

#[test]
fn a_short_or_unsynchronised_buffer_has_no_pcr() {
    let p = pcr_packet(900_000);
    assert_eq!(read_pcr(&p[..187]), None);
    let mut slipped = p;
    slipped[0] = 0x48;
    assert_eq!(read_pcr(&slipped), None);
    let mut short_field = p;
    short_field[4] = 6;
    assert_eq!(read_pcr(&short_field), None, "six octets of field leave no room");
    let mut long_field = p;
    long_field[4] = 184;
    assert_eq!(read_pcr(&long_field), None, "the field would leave the packet");
    let mut payload_only = p;
    payload_only[3] = 0x10;
    assert_eq!(read_pcr(&payload_only), None, "no adaptation field");
}

#[test]
fn ticks_convert_to_time_exactly() {
    assert_eq!(ticks_to_duration(27_000_000), 1_000_000_000);
    assert_eq!(ticks_to_duration(27_000), 1_000_000);
    assert_eq!(ticks_to_duration(1), 37);
}

#[test]
fn the_discontinuity_indicator_needs_an_adaptation_field() {
    let mut p = pcr_packet(0);
    set_discontinuity_indicator(&mut p);
    assert_eq!(p[5], 0x90);
    let mut bare = pcr_packet(0);
    bare[3] = 0x10;
    let before = bare;
    set_discontinuity_indicator(&mut bare);
    assert_eq!(bare, before, "payload-only packets have no flags to set");
}

#[test]
fn a_pending_flag_marks_the_next_pcr_without_moving_the_clock() {
    let mut regen = PcrRegen::new(12_000_000);
    let mut a = pcr_packet(100_000);
    regen.rewrite(&mut a, 0);
    regen.flag_discontinuity();
    let mut b = pcr_packet(200_000);
    assert!(!regen.rewrite(&mut b, 10), "a flag is not a re-base");
    assert_eq!(read_pcr(&b), Some(100_000 + 10 * 3_384));
    assert!(b[5] & 0x80 != 0);
    let mut c = pcr_packet(300_000);
    regen.rewrite(&mut c, 20);
    assert!(c[5] & 0x80 == 0, "the flag is spent");
}

#[test]
fn an_explicit_pcr_is_written_as_given() {
    let mut regen = PcrRegen::new(12_000_000);
    let mut a = pcr_packet(5);
    regen.rewrite_absolute(&mut a, PCR_WRAP_TICKS + 77);
    assert_eq!(read_pcr(&a), Some(77), "on the wrapping clock");
    assert_eq!(regen.locked_for_index(9), None, "and no anchor comes of it");
}

#[test]
fn locked_values_follow_the_anchor() {
    let mut regen = PcrRegen::new(12_000_000);
    assert_eq!(regen.locked_for_index(4), None);
    let mut a = pcr_packet(PCR_WRAP_TICKS - 3_384);
    regen.rewrite(&mut a, 100);
    assert_eq!(regen.locked_for_index(100), Some(PCR_WRAP_TICKS - 3_384));
    assert_eq!(regen.locked_for_index(101), Some(0), "the clock wraps");
    assert_eq!(regen.locked_for_index(102), Some(3_384));
}
