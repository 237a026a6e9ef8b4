use mpegts_pacer::source::PacketSplitter;
use mpegts_pacer::{Packet, ReadSource, TS_PACKET_SIZE};

fn raw(marker: u8) -> Vec<u8> {
    let mut p = vec![0x00_u8; TS_PACKET_SIZE];
    p[0] = 0x47;
    p[3] = 0x10;
    p[4] = marker;
    p
}

/// Read `bytes` through a source, at most `most` at a time.
fn read_all(bytes: &[u8], most: usize) -> Vec<Packet> {
    let mut source = ReadSource::new(0_usize);
    let mut packets = Vec::new();
    loop {
        if let Some(packet) = source.next_packet() {
            packets.push(packet);
            continue;
        }
        let wanted = source.wanted();
        let at = *source.reader_mut();
        let n = wanted.min(most).min(bytes.len() - at);
        if n == 0 {
            return packets;
        }
        source.fill(&bytes[at..at + n]);
        *source.reader_mut() += n;
    }
}

fn markers(packets: &[Packet]) -> Vec<u8> {
    packets.iter().map(|p| p.as_bytes()[4]).collect()
}

#[test]
fn reads_fixed_packets_whatever_the_reads_are() {
    let bytes: Vec<u8> = (1..=3).flat_map(raw).collect();
    for most in [1, 7, 188, 1_000] {
        assert_eq!(markers(&read_all(&bytes, most)), vec![1, 2, 3]);
    }
}

#[test]
fn resynchronises_on_the_sync_byte() {
    let mut bytes = vec![0x00, 0x11, 0x22];
    bytes.extend(raw(1));
    bytes.extend(raw(2));
    assert_eq!(markers(&read_all(&bytes, 50)), vec![1, 2]);
}

#[test]
fn a_trailing_partial_packet_is_discarded() {
    let mut bytes = raw(1);
    bytes.extend(&raw(2)[..100]);
    assert_eq!(markers(&read_all(&bytes, 64)), vec![1]);
}

#[test]
fn pieces_are_cut_into_packets_and_the_rest_kept() {
    let mut splitter = PacketSplitter::new();
    let bytes: Vec<u8> = (1..=4).flat_map(raw).collect();
    assert!(splitter.split_packets(&bytes[..100]).is_empty());
    assert_eq!(markers(&splitter.split_packets(&bytes[100..400])), vec![1, 2]);
    assert_eq!(markers(&splitter.split_packets(&bytes[400..])), vec![3, 4]);
    assert!(splitter.split_packets(&[]).is_empty());
}

#[test]
fn garbage_before_a_packet_is_passed_over() {
    let mut splitter = PacketSplitter::new();
    let mut bytes = vec![0xff; 5];
    bytes.extend(raw(9));
    assert_eq!(markers(&splitter.split_packets(&bytes)), vec![9]);
}

#[test]
fn where_the_pieces_are_cut_does_not_matter() {
    let mut bytes = vec![1, 2, 3];
    for marker in 1..=5 {
        bytes.extend(raw(marker));
        bytes.push(0);
    }
    let mut whole = PacketSplitter::new();
    let expected = markers(&whole.split_packets(&bytes));
    assert_eq!(expected, vec![1, 2, 3, 4, 5]);
    for cut in [1, 3, 190, 191, 192, 500] {
        let mut splitter = PacketSplitter::new();
        let mut got = markers(&splitter.split_packets(&bytes[..cut]));
        got.extend(markers(&splitter.split_packets(&bytes[cut..])));
        assert_eq!(got, expected, "cut at {cut}");
    }
}

#[test]
fn reads_do_not_matter_where_the_stream_is_damaged() {
    // Garbage before, between and after, and a packet cut short by the next one.
    let mut bytes = vec![9, 9, 9];
    bytes.extend(raw(1));
    bytes.extend([0, 0]);
    bytes.extend(raw(2));
    bytes.extend(&raw(3)[..60]);
    bytes.extend(raw(4));
    bytes.extend(raw(5));
    let whole = markers(&read_all(&bytes, usize::MAX));
    assert_eq!(whole[..2], [1, 2]);
    for most in [1, 2, 61, 187, 188, 189, 400] {
        assert_eq!(markers(&read_all(&bytes, most)), whole, "{most} at a time");
    }
    let mut splitter = PacketSplitter::new();
    assert_eq!(markers(&splitter.split_packets(&bytes)), whole);
}
