use dcp_node::header::{DcpHeader, DCP_MAGIC, HEADER_LEN};
use dcp_node::packet::PacketType;

#[test]
fn test_header_size() {
    assert_eq!(std::mem::size_of::<DcpHeader>(), 24);
}

#[test]
fn test_checksum() {
    let mut header = DcpHeader::new(1, 0, 12345);
    header.payload_len = 0;
    header.compute_checksum(&[]);
    assert!(header.verify_checksum(&[]));
}

#[test]
fn test_serialization() {
    let mut header = DcpHeader::new(5, 0, 999);
    header.sequence = 42;
    header.payload_len = 1024;
    header.compute_checksum(&[1, 2, 3, 4]);

    let bytes = header.to_bytes(&[1, 2, 3, 4]);
    let parsed = DcpHeader::from_bytes(&bytes).unwrap();
    assert_eq!(header.magic, parsed.magic);
    assert_eq!(header.typ, parsed.typ);
    assert_eq!(header.session_id, parsed.session_id);
    assert_eq!(header.sequence, parsed.sequence);
}

#[test]
fn new_header_defaults() {
    let h = DcpHeader::new(7, 0x30, 77);
    assert_eq!(h.magic, 0xDC01_2026);
    assert_eq!(h.magic, DCP_MAGIC);
    assert_eq!(h.typ, 7);
    assert_eq!(h.flags, 0x30);
    assert_eq!(h.session_id, 77);
    assert_eq!(h.sequence, 0);
    assert_eq!(h.window, 256);
    assert_eq!(h.payload_len, 1024);
    assert_eq!(h.checksum, [0u8; 4]);
}

#[test]
fn magic_masking_is_undone_by_the_same_salt() {
    let mut h = DcpHeader::new(1, 0, 1);
    h.set_magic_xor(0x1234_5678);
    assert_eq!(h.magic, 0xDC01_2026 ^ 0x1234_5678);
    assert_eq!(h.original_magic(0x1234_5678), 0xDC01_2026);
}

#[test]
fn wire_layout_is_little_endian() {
    let mut h = DcpHeader::new(2, 0xA5, 0x0403_0201);
    h.magic = 0x1122_3344;
    h.sequence = 0x0807_0605;
    h.window = 0x0C0B_0A09;
    h.payload_len = 0x0E0D;
    h.checksum = [0xF0, 0xF1, 0xF2, 0xF3];
    let bytes = h.to_bytes(&[9, 8]);
    assert_eq!(bytes.len(), HEADER_LEN + 2);
    assert_eq!(
        bytes,
        vec![
            0x44, 0x33, 0x22, 0x11, 0x01, 0x02, 0x03, 0x04, 0x05, 0x06, 0x07, 0x08, 0x09, 0x0A,
            0x0B, 0x0C, 0x0D, 0x0E, 2, 0xA5, 0xF0, 0xF1, 0xF2, 0xF3, 9, 8
        ]
    );
    let without = h.to_bytes_without_checksum();
    assert_eq!(without.len(), 24);
    assert_eq!(&without[..20], &bytes[..20]);
    assert_eq!(&without[20..], &[0u8, 0, 0, 0]);
}

#[test]
fn decoding_inverts_encoding() {
    let mut h = DcpHeader::new(9, 0xC3, 0xDEAD_BEEF);
    h.sequence = u32::MAX;
    h.window = 17;
    h.payload_len = 256;
    h.compute_checksum(b"payload");
    let bytes = h.to_bytes(b"payload");
    assert_eq!(DcpHeader::from_bytes(&bytes), Some(h));
    assert_eq!(&bytes[24..], b"payload");
}

#[test]
fn short_input_is_not_a_header() {
    assert_eq!(DcpHeader::from_bytes(&[0u8; 23]), None);
    assert_eq!(DcpHeader::from_bytes(&[]), None);
    assert!(DcpHeader::from_bytes(&[0u8; 24]).is_some());
}

#[test]
fn checksum_detects_changed_payload_and_header() {
    let mut h = DcpHeader::new(5, 0, 1);
    h.compute_checksum(&[1, 2, 3]);
    assert!(h.verify_checksum(&[1, 2, 3]));
    assert!(!h.verify_checksum(&[1, 2, 4]));
    let mut other = h;
    other.sequence = 1;
    assert!(!other.verify_checksum(&[1, 2, 3]));
}

#[test]
fn checksum_is_the_digest_prefix() {
    let mut h = DcpHeader::new(1, 0, 12345);
    h.payload_len = 0;
    h.compute_checksum(&[]);
    let mut input = h.to_bytes_without_checksum();
    input.extend_from_slice(&[]);
    let digest = blake3::hash(&input);
    assert_eq!(h.checksum, [digest.as_bytes()[0], digest.as_bytes()[1], digest.as_bytes()[2], digest.as_bytes()[3]]);
    assert_eq!(h.checksum_input(&[7]), {
        let mut v = h.to_bytes_without_checksum();
        v.push(7);
        v
    });
}

#[test]
fn recomputing_the_checksum_ignores_the_old_one() {
    let mut a = DcpHeader::new(3, 1, 2);
    let mut b = a;
    b.checksum = [1, 2, 3, 4];
    a.compute_checksum(b"x");
    b.compute_checksum(b"x");
    assert_eq!(a, b);
}

#[test]
fn header_text() {
    let mut header = DcpHeader::new(5, 0, 999);
    header.sequence = 42;
    assert_eq!(
        header.display_string(),
        "DCP[type=5, flags=0x00, session=999, seq=42, window=256, len=1024, magic=0xdc012026]"
    );
}

#[test]
fn packet_type_codes() {
    assert_eq!(PacketType::from(1u8), PacketType::Syn);
    assert_eq!(PacketType::from(5u8), PacketType::Data);
    assert_eq!(PacketType::from(200u8), PacketType::Data);
    assert_eq!(u8::from(PacketType::Storage), 7);
    assert_eq!(PacketType::from_code(10).code(), 10);
    assert_eq!(PacketType::from_code(11).code(), 5);
    assert_eq!(PacketType::PhishingVote.code(), 10);
}
