use mpegts_pacer::output::{rtp_timestamp_90khz, ssrc_from, RtpPacketizer, RTP_HEADER_SIZE};
use mpegts_pacer::{Framing, RTP_PAYLOAD_TYPE_MP2T};

#[test]
fn datagrams_are_numbered_in_order_and_stamped() {
    let mut rtp = RtpPacketizer::new(0x2020_4047);
    let first = rtp.wrap(&[1, 2, 3], 0).to_vec();
    assert_eq!(
        first,
        vec![0x80, 33, 0, 0, 0, 0, 0, 0, 0x20, 0x20, 0x40, 0x47, 1, 2, 3]
    );
    // One second is 90 000 ticks.
    let second = rtp.wrap(&[4, 5], 1_000_000_000).to_vec();
    assert_eq!(&second[2..4], &[0, 1]);
    assert_eq!(&second[4..8], &90_000_u32.to_be_bytes());
    assert_eq!(&second[RTP_HEADER_SIZE..], &[4, 5]);
    assert_eq!(second[1], RTP_PAYLOAD_TYPE_MP2T);
}

#[test]
fn offered_framing_numbers_one_datagram() {
    let mut rtp = RtpPacketizer::new(7);
    rtp.set_framing(Framing { slot: 99, sequence: 0xabcd, timestamp_90khz: 0x0102_0304 });
    let framed = rtp.wrap(&[], 5).to_vec();
    assert_eq!(&framed[2..8], &[0xab, 0xcd, 1, 2, 3, 4]);
    // The next one is back on the count of sends, which the framed one was part of.
    let counted = rtp.wrap(&[], 0).to_vec();
    assert_eq!(&counted[2..8], &[0, 1, 0, 0, 0, 0]);
}

#[test]
fn sequence_numbers_wrap() {
    let mut rtp = RtpPacketizer::new(7);
    for _ in 0..65_536 {
        rtp.wrap(&[], 0);
    }
    assert_eq!(&rtp.wrap(&[], 0)[2..4], &[0, 0]);
}

#[test]
fn timestamps_run_at_ninety_kilohertz_and_wrap() {
    assert_eq!(rtp_timestamp_90khz(1_500_000_000), 135_000);
    assert_eq!(rtp_timestamp_90khz(11_111), 0);
    assert_eq!(rtp_timestamp_90khz(11_112), 1);
    // 2^32 ticks take 47 721 s and 858.844 ms.
    assert_eq!(rtp_timestamp_90khz(47_721_858_844_445), 0);
}

#[test]
fn an_ssrc_mixes_clock_and_process() {
    assert_eq!(ssrc_from(0, 1), 0x1_0000);
    assert_eq!(ssrc_from(0xffff_ffff_0000_0001, 0), 1);
    assert_eq!(ssrc_from(0x1_0001, 1), 1);
}
