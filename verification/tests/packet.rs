use bytes::Bytes;
use mpegts_pacer::{Error, Packet, SYNC_BYTE, TS_PACKET_SIZE};

fn raw(pid: u16) -> [u8; TS_PACKET_SIZE] {
    let mut p = [0x00_u8; TS_PACKET_SIZE];
    p[0] = SYNC_BYTE;
    p[1] = (pid >> 8) as u8 & 0x1f;
    p[2] = pid as u8;
    p[3] = 0x10;
    p
}

#[test]
fn rejects_wrong_length() {
    assert!(Packet::from_slice(&[0x47; 187]).is_err());
    assert!(Packet::from_slice(&[0x47; 189]).is_err());
}

#[test]
fn rejects_missing_sync_byte() {
    let mut p = raw(0x100);
    p[0] = 0x00;
    assert!(Packet::from_slice(&p).is_err());
}

#[test]
fn reads_pid() {
    let p = Packet::from_slice(&raw(0x1234 & 0x1fff)).unwrap();
    assert_eq!(p.pid(), 0x1234 & 0x1fff);
}

#[test]
fn says_what_is_wrong() {
    assert!(matches!(
        Packet::from_slice(&[0x47; 187]),
        Err(Error::InvalidPacket("expected exactly 188 bytes"))
    ));
    assert!(matches!(
        Packet::from_slice(&[0x46; 188]),
        Err(Error::InvalidPacket("missing 0x47 sync byte"))
    ));
}

#[test]
fn wraps_a_buffer_without_changing_it() {
    let mut bytes = raw(0x55);
    bytes[187] = 0xa5;
    let buffer = Bytes::copy_from_slice(&bytes);
    let packet = Packet::new(buffer.clone()).unwrap();
    assert_eq!(packet.as_bytes(), &bytes[..]);
    assert_eq!(packet.as_ref(), &bytes[..]);
    let copy = packet.clone();
    assert_eq!(copy, packet);
    assert_eq!(copy.into_bytes(), buffer);
    let converted = Packet::try_from(buffer).unwrap();
    assert_eq!(converted.as_bytes()[187], 0xa5);
    assert!(Packet::try_from(Bytes::copy_from_slice(&bytes[1..])).is_err());
}

#[test]
fn a_packet_without_an_adaptation_field_has_no_pcr() {
    let packet = Packet::from_slice(&raw(0x55)).unwrap();
    assert_eq!(packet.pcr(), None);
    assert!(!packet.has_pcr());
}
