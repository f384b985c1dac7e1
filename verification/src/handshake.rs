//! The 0-RTT handshake state machine and the session table.

use vstd::prelude::*;
use crate::bytes::{append_bytes, copy_range, le_bytes_u32, push_u32_le, read_u32_le, u32_at};
use crate::clock::unix_time_millis;
use crate::crypto::{derive_session_key, SessionKey, X25519KeyPair};
use crate::entropy::{random_bytes, random_u32};
use crate::header::{decode_header, encode_packet, with_checksum, DcpHeader, DCP_MAGIC};
use crate::net::SocketAddress;
use crate::packet::PacketType;
use crate::x25519::{x25519_public, x25519_shared};
use std::collections::HashMap;

verus! {

/// Handshake state of a session.
#[derive(Debug, Clone, Copy, PartialEq, Eq, Structural)]
pub enum HandshakeState {
    Idle,
    SynSent,
    SynAckSent,
    SynAckReceived,
    Established,
    Failed,
}

/// Size every handshake payload is padded to.
pub const HANDSHAKE_PAYLOAD_LEN: usize = 256;

/// How many filler bytes bring `n` bytes up to the handshake payload size.
pub open spec fn pad_len(n: int) -> int {
    if n < 256 {
        256 - n
    } else {
        0
    }
}

/// The 32 bytes of `s` starting at `i` as an array.
pub open spec fn array32_at(s: Seq<u8>, i: int) -> [u8; 32] {
    [
        s[i], s[i + 1], s[i + 2], s[i + 3], s[i + 4], s[i + 5], s[i + 6], s[i + 7],
        s[i + 8], s[i + 9], s[i + 10], s[i + 11], s[i + 12], s[i + 13], s[i + 14], s[i + 15],
        s[i + 16], s[i + 17], s[i + 18], s[i + 19], s[i + 20], s[i + 21], s[i + 22], s[i + 23],
        s[i + 24], s[i + 25], s[i + 26], s[i + 27], s[i + 28], s[i + 29], s[i + 30], s[i + 31],
    ]
}

/// The header of a handshake packet before its checksum is set: magic masked
/// with `salt`, flags 1 and a 256-byte payload.
pub open spec fn handshake_header(typ: u8, id: u32, sequence: u32, window: u32, salt: u32) -> DcpHeader {
    DcpHeader {
        magic: DCP_MAGIC ^ salt,
        session_id: id,
        sequence,
        window,
        payload_len: 256,
        typ,
        flags: 1,
        checksum: [0u8, 0u8, 0u8, 0u8],
    }
}

/// `packet` is a SYN of session `id` (at `sequence`, with `window`) carrying
/// the local public key and `payload`: its body is the salt, the public key,
/// the payload and random filler up to 256 bytes, and its header is masked
/// with that salt and checksummed over the body.
pub open spec fn is_syn_packet(
    id: u32,
    sequence: u32,
    window: u32,
    public: Seq<u8>,
    payload: Seq<u8>,
    packet: Seq<u8>,
) -> bool {
    let body = packet.subrange(24, packet.len() as int);
    let salt = u32_at(body, 0);
    &&& packet.len() >= 24 + 36
    &&& body.len() == 36 + payload.len() + pad_len(36 + payload.len() as int)
    &&& body.subrange(0, 4) == le_bytes_u32(salt)
    &&& body.subrange(4, 36) == public
    &&& body.subrange(36, 36 + payload.len() as int) == payload
    &&& packet == encode_packet(
        with_checksum(handshake_header(1, id, sequence, window, salt), body),
        body,
    )
}

/// `packet` is the SYN-ACK of session `id` answering a SYN with sequence
/// number `syn_sequence` and salt `salt`: its body is the local public key,
/// the SYN's sequence number and random filler up to 256 bytes, and its
/// header has sequence 1, the session's window, a magic masked with the salt
/// and a checksum over the body.
pub open spec fn is_syn_ack_packet(
    id: u32,
    window: u32,
    salt: u32,
    public: Seq<u8>,
    syn_sequence: u32,
    packet: Seq<u8>,
) -> bool {
    let body = packet.subrange(24, packet.len() as int);
    &&& packet.len() == 24 + 256
    &&& body.subrange(0, 32) == public
    &&& body.subrange(32, 36) == le_bytes_u32(syn_sequence)
    &&& packet == encode_packet(with_checksum(handshake_header(2, id, 1, window, salt), body), body)
}

/// One end of a DCP session.
pub struct Session {
    pub id: u32,
    pub state: HandshakeState,
    pub local_keypair: X25519KeyPair,
    pub peer_public: Option<[u8; 32]>,
    pub session_key: Option<SessionKey>,
    pub sequence: u32,
    pub window: u32,
    pub remote_addr: SocketAddress,
    /// Creation time in milliseconds since the Unix epoch.
    pub created_at: u64,
}

/// `b` is `a` with possibly another state, peer key and session key.
pub open spec fn same_session_but_handshake(a: Session, b: Session) -> bool {
    &&& a.id == b.id
    &&& a.local_keypair == b.local_keypair
    &&& a.sequence == b.sequence
    &&& a.window == b.window
    &&& a.remote_addr == b.remote_addr
    &&& a.created_at == b.created_at
}

/// `s` holds the session key derived from its secret and `peer`.
pub open spec fn keyed_with(s: Session, peer: Seq<u8>) -> bool {
    &&& s.session_key matches Some(k)
    &&& k.key@ == derive_session_key(x25519_shared(s.local_keypair.secret@, peer))
    &&& k.nonce_counter == 0
}

impl Session {
    /// A new idle session with `remote_addr` under id `id`, with the key pair
    /// `local_keypair`, created at `now` (milliseconds since the Unix epoch):
    /// no peer yet, sequence 0, window 256.
    pub fn new_with(remote_addr: SocketAddress, id: u32, local_keypair: X25519KeyPair, now: u64) -> (r: Self)
        ensures
            r == (Session {
                id,
                state: HandshakeState::Idle,
                local_keypair,
                peer_public: None,
                session_key: None,
                sequence: 0,
                window: 256,
                remote_addr,
                created_at: now,
            }),
    {
        Session {
            id,
            state: HandshakeState::Idle,
            local_keypair,
            peer_public: None,
            session_key: None,
            sequence: 0,
            window: 256,
            remote_addr,
            created_at: now,
        }
    }

    /// A new idle session with `remote_addr`: random id, fresh key pair,
    /// created now; see `new_with`.
    pub fn new(remote_addr: SocketAddress) -> (r: Self)
        ensures
            r.state == HandshakeState::Idle,
            r.local_keypair.wf(),
            r.peer_public is None,
            r.session_key is None,
            r.sequence == 0,
            r.window == 256,
            r.remote_addr == remote_addr,
    {
        let id = random_u32();
        let local_keypair = X25519KeyPair::generate();
        let now = unix_time_millis();
        Self::new_with(remote_addr, id, local_keypair, now)
    }

    /// The SYN packet for `payload` with the given salt and filler (the
    /// filler makes the body 256 bytes when it is shorter); the session moves
    /// to `SynSent`.
    pub fn syn_packet_with(&mut self, payload: &[u8], salt: u32, filler: &[u8]) -> (r: Vec<u8>)
        requires
            payload@.len() + 300 <= usize::MAX,
            filler@.len() == pad_len(36 + payload@.len() as int),
        ensures
            final(self).state == HandshakeState::SynSent,
            final(self).peer_public == old(self).peer_public,
            final(self).session_key == old(self).session_key,
            same_session_but_handshake(*old(self), *final(self)),
            is_syn_packet(
                old(self).id,
                old(self).sequence,
                old(self).window,
                old(self).local_keypair.public@,
                payload@,
                r@,
            ),
            r@.subrange(24, r@.len() as int).subrange(36 + payload@.len() as int, r@.len() - 24)
                == filler@,
            u32_at(r@.subrange(24, r@.len() as int), 0) == salt,
    {
        self.state = HandshakeState::SynSent;
        let mut header = DcpHeader::new(PacketType::Syn.code(), 1, self.id);
        header.set_magic_xor(salt);
        header.sequence = self.sequence;
        header.window = self.window;
        header.payload_len = 256;
        let mut body: Vec<u8> = Vec::new();
        push_u32_le(&mut body, salt);
        let public = self.local_keypair.public_bytes();
        append_bytes(&mut body, public.as_slice());
        append_bytes(&mut body, payload);
        append_bytes(&mut body, filler);
        let ghost unsalted = header;
        proof {
            assert(unsalted == handshake_header(1, self.id, self.sequence, self.window, salt));
            crate::bytes::lemma_u32_le_roundtrip(salt);
        }
        header.compute_checksum(body.as_slice());
        let r = header.to_bytes(body.as_slice());
        proof {
            crate::header::lemma_encode_decode(header, body@);
            assert(r@.subrange(24, r@.len() as int) =~= body@);
            assert(body@.subrange(0, 4) =~= le_bytes_u32(salt));
            assert(body@.subrange(4, 36) =~= public@);
            assert(body@.subrange(36, 36 + payload@.len() as int) =~= payload@);
            assert(body@.subrange(36 + payload@.len() as int, body@.len() as int) =~= filler@);
        }
        r
    }

    /// Builds the SYN packet for `payload` (0-RTT: the payload rides along)
    /// with a random salt and random filler; the session moves to `SynSent`.
    pub fn create_syn_packet(&mut self, payload: &[u8]) -> (r: Vec<u8>)
        requires
            payload@.len() + 300 <= usize::MAX,
        ensures
            final(self).state == HandshakeState::SynSent,
            final(self).peer_public == old(self).peer_public,
            final(self).session_key == old(self).session_key,
            same_session_but_handshake(*old(self), *final(self)),
            is_syn_packet(
                old(self).id,
                old(self).sequence,
                old(self).window,
                old(self).local_keypair.public@,
                payload@,
                r@,
            ),
    {
        let salt = random_u32();
        let used = 36 + payload.len();
        let needed = if used < HANDSHAKE_PAYLOAD_LEN {
            HANDSHAKE_PAYLOAD_LEN - used
        } else {
            0
        };
        let filler = random_bytes(needed);
        self.syn_packet_with(payload, salt, filler.as_slice())
    }

    /// Answers a SYN whose payload is `payload` with the given filler (220
    /// bytes): a payload shorter than 36 bytes is refused with `None` and
    /// changes nothing; otherwise the peer's key is taken from it, the
    /// session key is derived, the session moves to `SynAckSent` and the
    /// SYN-ACK is returned.
    pub fn syn_ack_packet_with(&mut self, header: &DcpHeader, payload: &[u8], filler: &[u8]) -> (r:
        Option<Vec<u8>>)
        requires
            filler@.len() == 220,
        ensures
            payload@.len() < 36 ==> r is None && *final(self) == *old(self),
            payload@.len() >= 36 ==> {
                let peer = payload@.subrange(4, 36);
                &&& r matches Some(p)
                &&& final(self).state == HandshakeState::SynAckSent
                &&& final(self).peer_public == Some(array32_at(payload@, 4))
                &&& keyed_with(*final(self), peer)
                &&& same_session_but_handshake(*old(self), *final(self))
                &&& is_syn_ack_packet(
                    old(self).id,
                    old(self).window,
                    u32_at(payload@, 0),
                    old(self).local_keypair.public@,
                    header.sequence,
                    p@,
                )
                &&& p@.subrange(60, 280) == filler@
            },
    {
        if payload.len() < 36 {
            return None;
        }
        let salt = read_u32_le(payload, 0);
        let peer_bytes = copy_range(payload, 4, 36);
        let peer_public: [u8; 32] = [
            peer_bytes[0], peer_bytes[1], peer_bytes[2], peer_bytes[3], peer_bytes[4],
            peer_bytes[5], peer_bytes[6], peer_bytes[7], peer_bytes[8], peer_bytes[9],
            peer_bytes[10], peer_bytes[11], peer_bytes[12], peer_bytes[13], peer_bytes[14],
            peer_bytes[15], peer_bytes[16], peer_bytes[17], peer_bytes[18], peer_bytes[19],
            peer_bytes[20], peer_bytes[21], peer_bytes[22], peer_bytes[23], peer_bytes[24],
            peer_bytes[25], peer_bytes[26], peer_bytes[27], peer_bytes[28], peer_bytes[29],
            peer_bytes[30], peer_bytes[31],
        ];
        assert(peer_public@ =~= payload@.subrange(4, 36));
        assert(peer_public =~= array32_at(payload@, 4));
        self.peer_public = Some(peer_public);
        self.state = HandshakeState::SynAckSent;
        let shared = self.local_keypair.diffie_hellman(&peer_public);
        let session_key = SessionKey::from_shared_secret(&shared);
        self.session_key = Some(session_key);

        let mut ack_header = DcpHeader::new(PacketType::SynAck.code(), 1, self.id);
        ack_header.set_magic_xor(salt);
        ack_header.sequence = 1;
        ack_header.window = self.window;
        ack_header.payload_len = 256;
        let ghost unsalted = ack_header;
        assert(unsalted == handshake_header(2, self.id, 1, self.window, salt));

        let mut ack_payload: Vec<u8> = Vec::new();
        let public = self.local_keypair.public_bytes();
        append_bytes(&mut ack_payload, public.as_slice());
        push_u32_le(&mut ack_payload, header.sequence);
        append_bytes(&mut ack_payload, filler);

        ack_header.compute_checksum(ack_payload.as_slice());
        let r = ack_header.to_bytes(ack_payload.as_slice());
        proof {
            crate::header::lemma_encode_decode(ack_header, ack_payload@);
            assert(r@.subrange(24, r@.len() as int) =~= ack_payload@);
            assert(ack_payload@.subrange(0, 32) =~= public@);
            assert(ack_payload@.subrange(32, 36) =~= le_bytes_u32(header.sequence));
            assert(r@.subrange(60, 280) =~= filler@);
        }
        Some(r)
    }

    /// Answers a SYN with random filler: see `syn_ack_packet_with`.
    pub fn handle_syn(&mut self, header: &DcpHeader, payload: &[u8]) -> (r: Option<Vec<u8>>)
        ensures
            payload@.len() < 36 ==> r is None && *final(self) == *old(self),
            payload@.len() >= 36 ==> {
                let peer = payload@.subrange(4, 36);
                &&& r matches Some(p)
                &&& final(self).state == HandshakeState::SynAckSent
                &&& final(self).peer_public == Some(array32_at(payload@, 4))
                &&& keyed_with(*final(self), peer)
                &&& same_session_but_handshake(*old(self), *final(self))
                &&& is_syn_ack_packet(
                    old(self).id,
                    old(self).window,
                    u32_at(payload@, 0),
                    old(self).local_keypair.public@,
                    header.sequence,
                    p@,
                )
            },
    {
        if payload.len() < 36 {
            return None;
        }
        let filler = random_bytes(220);
        self.syn_ack_packet_with(header, payload, filler.as_slice())
    }

    /// Completes the handshake from a SYN-ACK payload: shorter than 32 bytes
    /// it is refused (`false`, nothing changes); otherwise the peer's key is
    /// its first 32 bytes, the session key is derived and the session is
    /// `Established`. The key is the one the peer derived: when the peer's
    /// key belongs to a secret `other`, it is derived from what `other`
    /// computes with this session's public key.
    pub fn handle_syn_ack(&mut self, header: &DcpHeader, payload: &[u8]) -> (r: bool)
        ensures
            r == (payload@.len() >= 32),
            !r ==> *final(self) == *old(self),
            r ==> {
                let peer = payload@.subrange(0, 32);
                &&& final(self).state == HandshakeState::Established
                &&& final(self).peer_public == Some(array32_at(payload@, 0))
                &&& keyed_with(*final(self), peer)
                &&& same_session_but_handshake(*old(self), *final(self))
                &&& old(self).local_keypair.wf() ==> forall|other: Seq<u8>|
                    #![trigger x25519_public(other)]
                    other.len() == 32 && x25519_public(other) == peer
                        ==> final(self).session_key.unwrap().key@ == derive_session_key(
                        x25519_shared(other, old(self).local_keypair.public@),
                    )
            },
    {
        if payload.len() < 32 {
            return false;
        }
        let peer_bytes = copy_range(payload, 0, 32);
        let peer_public: [u8; 32] = [
            peer_bytes[0], peer_bytes[1], peer_bytes[2], peer_bytes[3], peer_bytes[4],
            peer_bytes[5], peer_bytes[6], peer_bytes[7], peer_bytes[8], peer_bytes[9],
            peer_bytes[10], peer_bytes[11], peer_bytes[12], peer_bytes[13], peer_bytes[14],
            peer_bytes[15], peer_bytes[16], peer_bytes[17], peer_bytes[18], peer_bytes[19],
            peer_bytes[20], peer_bytes[21], peer_bytes[22], peer_bytes[23], peer_bytes[24],
            peer_bytes[25], peer_bytes[26], peer_bytes[27], peer_bytes[28], peer_bytes[29],
            peer_bytes[30], peer_bytes[31],
        ];
        assert(peer_public@ =~= payload@.subrange(0, 32));
        assert(peer_public =~= array32_at(payload@, 0));
        self.peer_public = Some(peer_public);
        let shared = self.local_keypair.diffie_hellman(&peer_public);
        let session_key = SessionKey::from_shared_secret(&shared);
        self.session_key = Some(session_key);
        self.state = HandshakeState::Established;
        true
    }
}

/// The SYN of a session announces the session's own id, sequence number
/// and window in its header: a fresh session (sequence 0, window 256, as
/// `get_or_create` files it) sends a SYN of type 1 with sequence 0 and a
/// 256-packet window.
pub proof fn lemma_syn_announces_session(
    id: u32,
    sequence: u32,
    window: u32,
    public: Seq<u8>,
    payload: Seq<u8>,
    packet: Seq<u8>,
)
    requires
        is_syn_packet(id, sequence, window, public, payload, packet),
    ensures
        decode_header(packet).typ == 1,
        decode_header(packet).session_id == id,
        decode_header(packet).sequence == sequence,
        decode_header(packet).window == window,
        decode_header(packet).payload_len == 256,
{
    let body = packet.subrange(24, packet.len() as int);
    let salt = u32_at(body, 0);
    crate::header::lemma_encode_decode(
        with_checksum(handshake_header(1, id, sequence, window, salt), body),
        body,
    );
}

/// Both ends of a completed handshake hold the same session key. The
/// responder, answering the initiator's SYN, keyed its session with the
/// initiator's public key; the initiator, reading the responder's public key
/// from the SYN-ACK, derived its key from what any secret behind that public
/// key computes with the initiator's public key (as `handle_syn_ack`
/// states). Then the two keys are equal.
pub proof fn lemma_handshake_keys_agree(initiator: Session, responder: Session)
    requires
        responder.local_keypair.wf(),
        keyed_with(responder, initiator.local_keypair.public@),
        initiator.session_key is Some,
        forall|other: Seq<u8>|
            #![trigger x25519_public(other)]
            other.len() == 32 && x25519_public(other) == responder.local_keypair.public@
                ==> initiator.session_key.unwrap().key@ == derive_session_key(
                x25519_shared(other, initiator.local_keypair.public@),
            ),
    ensures
        initiator.session_key.unwrap().key@ == responder.session_key.unwrap().key@,
{
    let other = responder.local_keypair.secret@;
    assert(x25519_public(other) == responder.local_keypair.public@);
}

} // verus!

verus! {

broadcast use vstd::std_specs::hash::group_hash_axioms;

/// The sessions of a node, by session id.
pub struct SessionManager {
    pub sessions: HashMap<u32, Session>,
}

impl SessionManager {
    /// Every session is filed under its own id.
    pub open spec fn wf(&self) -> bool {
        forall|k: u32| #[trigger]
            self.sessions@.contains_key(k) ==> self.sessions@[k].id == k
    }

    /// An empty table.
    pub fn new() -> (r: Self)
        ensures
            r.sessions@ == Map::<u32, Session>::empty(),
            r.wf(),
    {
        SessionManager { sessions: HashMap::new() }
    }

    /// Opens a new idle session with `addr` (fresh key pair, sequence 0,
    /// window 256, as `Session::new` makes it), files it under its id
    /// (replacing any session with the same id) and returns the id.
    pub fn get_or_create(&mut self, addr: SocketAddress) -> (r: u32)
        ensures
            final(self).sessions@.contains_key(r),
            final(self).sessions@ == old(self).sessions@.insert(r, final(self).sessions@[r]),
            final(self).sessions@[r].id == r,
            final(self).sessions@[r].state == HandshakeState::Idle,
            final(self).sessions@[r].local_keypair.wf(),
            final(self).sessions@[r].peer_public is None,
            final(self).sessions@[r].session_key is None,
            final(self).sessions@[r].remote_addr == addr,
            final(self).sessions@[r].sequence == 0,
            final(self).sessions@[r].window == 256,
            old(self).wf() ==> final(self).wf(),
    {
        let session = Session::new(addr);
        let id = session.id;
        self.sessions.insert(id, session);
        id
    }

    /// The session filed under `id`, if any.
    pub fn get_session(&self, id: u32) -> (r: Option<&Session>)
        ensures
            match r {
                Some(s) => self.sessions@.contains_key(id) && *s == self.sessions@[id],
                None => !self.sessions@.contains_key(id),
            },
    {
        self.sessions.get(&id)
    }

    /// Files `session` under its id, replacing any session with that id.
    pub fn store_session(&mut self, session: Session)
        ensures
            final(self).sessions@ == old(self).sessions@.insert(session.id, session),
            old(self).wf() ==> final(self).wf(),
    {
        let id = session.id;
        self.sessions.insert(id, session);
    }
}

impl Default for SessionManager {
    fn default() -> (r: Self)
        ensures
            r.sessions@ == Map::<u32, Session>::empty(),
    {
        Self::new()
    }
}

} // verus!
