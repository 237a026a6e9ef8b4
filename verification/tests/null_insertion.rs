use mpegts_pacer::null_insertion::{null_packet, pcr_only_packet};
use mpegts_pacer::pcr::read_pcr;
use mpegts_pacer::{NULL_PID, TS_PACKET_SIZE};

#[test]
fn null_packet_has_the_null_pid() {
    let p = null_packet();
    assert_eq!(p[0], 0x47);
    let pid = (u16::from(p[1] & 0x1f) << 8) | u16::from(p[2]);
    assert_eq!(pid, NULL_PID);
    assert_eq!(p.len(), TS_PACKET_SIZE);
}

#[test]
fn null_packet_is_payload_of_ones() {
    let p = null_packet();
    assert_eq!(p[3], 0x10);
    assert!(p[4..].iter().all(|b| *b == 0xff));
    assert_eq!(read_pcr(&p), None);
}

#[test]
fn a_pcr_only_packet_carries_its_clock_and_nothing_else() {
    let p = pcr_only_packet(0x1abc, 0xf7, 123_456_789);
    assert_eq!(p[0], 0x47);
    assert_eq!((u16::from(p[1] & 0x1f) << 8) | u16::from(p[2]), 0x1abc);
    assert_eq!(p[3], 0x27, "no payload, and the counter it was given");
    assert_eq!(p[4], 183);
    assert_eq!(p[5], 0x10);
    assert_eq!(read_pcr(&p), Some(123_456_789));
    assert!(p[12..].iter().all(|b| *b == 0xff));
}
