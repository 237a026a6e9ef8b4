use mpegts_pacer::jitter_buffer::JitterBuffer;
use mpegts_pacer::{Packet, TS_PACKET_SIZE};

fn packet(marker: u8) -> Packet {
    let mut p = [0x00_u8; TS_PACKET_SIZE];
    p[0] = 0x47;
    p[3] = 0x10;
    p[4] = marker;
    Packet::from_slice(&p).unwrap()
}

#[test]
fn fifo_order() {
    let mut buf = JitterBuffer::new(4);
    assert!(!buf.push(packet(1)));
    assert!(!buf.push(packet(2)));
    assert_eq!(buf.len(), 2);
    assert_eq!(buf.pop().unwrap().as_bytes()[4], 1);
    assert_eq!(buf.pop().unwrap().as_bytes()[4], 2);
    assert!(buf.is_empty());
}

#[test]
fn capacity_only_grows() {
    let mut buf = JitterBuffer::new(2);
    buf.grow_to(4);
    for i in 0..3 {
        assert!(!buf.push(packet(i)), "packet {i} fits the raised capacity");
    }
    // A revised-down estimate must not evict media already accepted.
    buf.grow_to(1);
    assert!(!buf.push(packet(3)), "the bound stayed at 4");
    assert_eq!(buf.len(), 4);
    assert!(buf.push(packet(4)), "and 4 is still the bound");
}

#[test]
fn drops_oldest_when_full() {
    let mut buf = JitterBuffer::new(2);
    assert!(!buf.push(packet(1)));
    assert!(!buf.push(packet(2)));
    assert!(buf.push(packet(3)), "third push drops the oldest");
    assert_eq!(buf.len(), 2);
    // Oldest (1) was dropped; 2 then 3 remain.
    assert_eq!(buf.pop().unwrap().as_bytes()[4], 2);
    assert_eq!(buf.pop().unwrap().as_bytes()[4], 3);
}

#[test]
fn a_zero_capacity_holds_one() {
    let mut buf = JitterBuffer::new(0);
    assert!(buf.pop().is_none());
    assert!(!buf.push(packet(1)));
    assert!(buf.push(packet(2)));
    assert_eq!(buf.pop().unwrap().as_bytes()[4], 2);
}
