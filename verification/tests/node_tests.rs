use dcp_node::camouflage::{CIPPool, DecoyScheduler};
use dcp_node::header::DcpHeader;
use dcp_node::node::{classify_datagram, decoy_step, decoy_tick, Inbound};
use dcp_node::packet::PacketType;

#[test]
fn short_datagrams_are_ignored() {
    assert_eq!(classify_datagram(&[0u8; 23]), Inbound::TooShort);
    assert_eq!(classify_datagram(&[]), Inbound::TooShort);
}

#[test]
fn sound_packets_are_dispatched_by_kind() {
    let mut h = DcpHeader::new(4, 0, 11);
    h.compute_checksum(b"beat");
    let bytes = h.to_bytes(b"beat");
    assert_eq!(classify_datagram(&bytes), Inbound::Packet(h, PacketType::Heartbeat));
    let mut unknown = DcpHeader::new(77, 0, 11);
    unknown.compute_checksum(&[]);
    assert_eq!(
        classify_datagram(&unknown.to_bytes(&[])),
        Inbound::Packet(unknown, PacketType::Data)
    );
}

#[test]
fn corrupted_packets_are_refused() {
    let mut h = DcpHeader::new(5, 0, 11);
    h.compute_checksum(b"data");
    let mut bytes = h.to_bytes(b"data");
    bytes[25] ^= 0x40;
    assert_eq!(classify_datagram(&bytes), Inbound::BadChecksum(h));
}

#[test]
fn quiet_scheduler_sends_no_decoy() {
    let mut d = DecoyScheduler::new(100);
    d.set_background_noise(false);
    let mut pool = CIPPool::new();
    assert!(decoy_tick(&d, &mut pool).is_none());
}

#[test]
fn decoys_carry_a_full_noise_packet() {
    let d = DecoyScheduler::new(100);
    let mut pool = CIPPool::new();
    let mut sent = 0;
    for _ in 0..200 {
        if let Some((ip, noise)) = decoy_tick(&d, &mut pool) {
            assert_eq!(noise.len(), 1024);
            assert!(pool.is_in_cooldown(&ip));
            sent += 1;
        }
    }
    assert!(sent > 0);
}

#[test]
fn decoy_step_follows_the_draw() {
    let d = DecoyScheduler::new(100);
    let mut pool = CIPPool::new();
    assert!(decoy_step(&d, &mut pool, false).is_none());
    let (ip, noise) = decoy_step(&d, &mut pool, true).unwrap();
    assert_eq!(noise.len(), 1024);
    assert!(pool.is_in_cooldown(&ip));
}
