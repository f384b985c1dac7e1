use dcp_node::handshake::{HandshakeState, Session, SessionManager};
use dcp_node::header::DcpHeader;
use dcp_node::net::{IpAddress, SocketAddress};

fn addr(last: u8) -> SocketAddress {
    SocketAddress { ip: IpAddress::v4(192, 168, 0, last), port: 9876 }
}

#[test]
fn new_session_is_idle() {
    let s = Session::new(addr(1));
    assert_eq!(s.state, HandshakeState::Idle);
    assert!(s.peer_public.is_none());
    assert!(s.session_key.is_none());
    assert_eq!(s.sequence, 0);
    assert_eq!(s.window, 256);
    assert_eq!(s.remote_addr, addr(1));
}

#[test]
fn session_from_given_draws() {
    let pair = dcp_node::crypto::X25519KeyPair::generate();
    let public = pair.public;
    let s = Session::new_with(addr(5), 77, pair, 1234);
    assert_eq!(s.id, 77);
    assert_eq!(s.created_at, 1234);
    assert_eq!(s.local_keypair.public, public);
    assert_eq!(s.state, HandshakeState::Idle);
}

#[test]
fn syn_packet_layout() {
    let mut alice = Session::new(addr(1));
    let syn = alice.create_syn_packet(b"early data");
    assert_eq!(alice.state, HandshakeState::SynSent);
    assert_eq!(syn.len(), 24 + 256);
    let header = DcpHeader::from_bytes(&syn).unwrap();
    assert_eq!(header.typ, 1);
    assert_eq!(header.flags, 1);
    assert_eq!(header.session_id, alice.id);
    assert_eq!(header.window, 256);
    assert_eq!(header.payload_len, 256);
    let body = &syn[24..];
    assert!(header.verify_checksum(body));
    let salt = u32::from_le_bytes([body[0], body[1], body[2], body[3]]);
    assert_eq!(header.original_magic(salt), 0xDC01_2026);
    assert_eq!(&body[4..36], &alice.local_keypair.public_bytes());
    assert_eq!(&body[36..46], b"early data");
}

#[test]
fn long_syn_payload_is_not_padded() {
    let mut alice = Session::new(addr(1));
    let payload = vec![7u8; 300];
    let syn = alice.create_syn_packet(&payload);
    assert_eq!(syn.len(), 24 + 36 + 300);
}

#[test]
fn full_handshake_agrees_on_a_key() {
    let mut alice = Session::new(addr(2));
    let mut bob = Session::new(addr(1));
    let syn = alice.create_syn_packet(b"hi");
    let syn_header = DcpHeader::from_bytes(&syn).unwrap();
    let syn_ack = bob.handle_syn(&syn_header, &syn[24..]).unwrap();
    assert_eq!(bob.state, HandshakeState::SynAckSent);
    assert_eq!(bob.peer_public, Some(alice.local_keypair.public_bytes()));

    let ack_header = DcpHeader::from_bytes(&syn_ack).unwrap();
    assert_eq!(ack_header.typ, 2);
    assert_eq!(ack_header.sequence, 1);
    assert_eq!(ack_header.session_id, bob.id);
    assert!(ack_header.verify_checksum(&syn_ack[24..]));
    let salt = u32::from_le_bytes([syn[24], syn[25], syn[26], syn[27]]);
    assert_eq!(ack_header.original_magic(salt), 0xDC01_2026);
    assert_eq!(&syn_ack[24..56], &bob.local_keypair.public_bytes());
    assert_eq!(&syn_ack[56..60], &syn_header.sequence.to_le_bytes());

    assert!(alice.handle_syn_ack(&ack_header, &syn_ack[24..]));
    assert_eq!(alice.state, HandshakeState::Established);
    let ka = alice.session_key.as_mut().unwrap();
    let kb = bob.session_key.as_mut().unwrap();
    assert_eq!(ka.key, kb.key);
    let sealed = ka.encrypt(b"over the tunnel");
    assert_eq!(kb.decrypt(&sealed), Some(b"over the tunnel".to_vec()));
}

#[test]
fn short_handshake_payloads_are_refused() {
    let mut bob = Session::new(addr(1));
    let h = DcpHeader::new(1, 1, 5);
    assert!(bob.handle_syn(&h, &[0u8; 35]).is_none());
    assert_eq!(bob.state, HandshakeState::Idle);
    assert!(bob.session_key.is_none());
    let mut alice = Session::new(addr(2));
    assert!(!alice.handle_syn_ack(&h, &[0u8; 31]));
    assert_eq!(alice.state, HandshakeState::Idle);
    assert!(alice.peer_public.is_none());
}

#[test]
fn session_manager_files_sessions_by_id() {
    let mut m = SessionManager::new();
    let id = m.get_or_create(addr(3));
    let s = m.get_session(id).unwrap();
    assert_eq!(s.id, id);
    assert_eq!(s.remote_addr, addr(3));
    assert!(m.get_session(id.wrapping_add(1)).is_none() || m.sessions.len() > 1);
    let mut other = Session::new(addr(4));
    other.sequence = 9;
    let oid = other.id;
    m.store_session(other);
    assert_eq!(m.get_session(oid).unwrap().sequence, 9);
    let d = SessionManager::default();
    assert!(d.sessions.is_empty());
}
