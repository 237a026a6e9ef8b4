use mpegts_pacer::estimate_content_bitrate;
use mpegts_pacer::pcr::{write_pcr, PCR_CLOCK_HZ, TS_PACKET_SIZE as PKT};
use mpegts_pacer::{Packet, NULL_PID};

fn pcr_packet(pcr_ticks: u64) -> Packet {
    let mut p = [0xff_u8; PKT];
    p[0] = 0x47;
    p[1] = 0x01;
    p[2] = 0x00;
    p[3] = 0x30;
    p[4] = 7;
    p[5] = 0x10;
    write_pcr(&mut p[6..12], pcr_ticks);
    Packet::from_slice(&p).unwrap()
}

fn plain(pid: u16) -> Packet {
    let mut p = [0x00_u8; PKT];
    p[0] = 0x47;
    p[1] = (pid >> 8) as u8 & 0x1f;
    p[2] = pid as u8;
    p[3] = 0x10;
    Packet::from_slice(&p).unwrap()
}

#[test]
fn none_without_two_pcrs() {
    assert_eq!(estimate_content_bitrate(&[]), None);
    assert_eq!(estimate_content_bitrate(&[pcr_packet(0)]), None);
    assert_eq!(estimate_content_bitrate(&[plain(0x100), plain(0x100)]), None);
}

#[test]
fn measures_content_rate_between_pcrs() {
    // 10 content packets across a 1/25 s (40 ms) PCR span. 10 * 188 * 8 bits
    // over 0.04 s = 376_000 bps.
    let mut packets = vec![pcr_packet(0)];
    for _ in 0..8 {
        packets.push(plain(0x100));
    }
    packets.push(pcr_packet(PCR_CLOCK_HZ / 25));
    assert_eq!(estimate_content_bitrate(&packets), Some(376_000));
}

#[test]
fn excludes_null_padding() {
    let mut with_nulls = vec![pcr_packet(0)];
    for _ in 0..8 {
        with_nulls.push(plain(0x100));
    }
    for _ in 0..100 {
        with_nulls.push(plain(NULL_PID));
    }
    with_nulls.push(pcr_packet(PCR_CLOCK_HZ / 25));
    // Same content rate as without the padding.
    assert_eq!(estimate_content_bitrate(&with_nulls), Some(376_000));
}

#[test]
fn what_lies_outside_the_samples_does_not_count() {
    let packets = vec![
        plain(0x100),
        plain(0x100),
        pcr_packet(0),
        plain(0x100),
        pcr_packet(PCR_CLOCK_HZ),
        plain(0x100),
        plain(NULL_PID),
    ];
    // Three content packets over one second.
    assert_eq!(estimate_content_bitrate(&packets), Some(3 * 188 * 8));
}

#[test]
fn a_clock_that_does_not_move_measures_nothing() {
    assert_eq!(estimate_content_bitrate(&[pcr_packet(5), pcr_packet(5)]), None);
}
