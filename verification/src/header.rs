//! The 24-byte DCP header: fields, wire encoding and BLAKE3 checksum.

use vstd::prelude::*;
use crate::blake::{blake3_digest, blake3_hash};
use crate::text::{append_decimal, append_hex, dec_text, hex_text};
use vstd::string::StringExecFns;
use crate::bytes::{
    append_bytes, le_bytes_u16, le_bytes_u32, lemma_le_u16_roundtrip, lemma_le_u32_roundtrip,
    lemma_u16_le_roundtrip, lemma_u32_le_roundtrip, push_u16_le, push_u32_le, read_u16_le,
    read_u32_le, u16_at, u32_at,
};

verus! {

/// The text of a header: `DCP[type=T, flags=0xFF, session=S, seq=Q,
/// window=W, len=L, magic=0xMMMMMMMM]` with the numbers in decimal, the
/// flags as two and the magic as eight lowercase hexadecimal digits.
pub open spec fn header_text(h: DcpHeader) -> Seq<char> {
    "DCP[type="@ + dec_text(h.typ as nat) + ", flags=0x"@ + hex_text(h.flags as nat, 2) + ", session="@
        + dec_text(h.session_id as nat) + ", seq="@ + dec_text(h.sequence as nat) + ", window="@
        + dec_text(h.window as nat) + ", len="@ + dec_text(h.payload_len as nat) + ", magic=0x"@
        + hex_text(h.magic as nat, 8) + "]"@
}

/// The magic number before it is masked with a salt.
pub const DCP_MAGIC: u32 = 0xDC012026;

/// Size of the encoded header in bytes.
pub const HEADER_LEN: usize = 24;

/// Offset of the checksum inside the encoded header.
pub const CHECKSUM_OFFSET: usize = 20;

/// DCP header.
///
/// Wire layout (little endian): magic, session id, sequence, window (4 bytes
/// each), payload length (2), type (1), flags (1), checksum (4).
/// Flags: bit 0 PoW, bit 1 ACK, bit 2 sandbox, bit 3 offline sweep,
/// bits 4-5 cipher suite, bits 6-7 camouflage mode.
#[derive(Debug, Clone, Copy, PartialEq, Eq)]
pub struct DcpHeader {
    pub magic: u32,
    pub session_id: u32,
    pub sequence: u32,
    pub window: u32,
    pub payload_len: u16,
    pub typ: u8,
    pub flags: u8,
    pub checksum: [u8; 4],
}

/// The first 20 encoded bytes: every field but the checksum.
pub open spec fn header_prefix(h: DcpHeader) -> Seq<u8> {
    le_bytes_u32(h.magic) + le_bytes_u32(h.session_id) + le_bytes_u32(h.sequence) + le_bytes_u32(
        h.window,
    ) + le_bytes_u16(h.payload_len) + seq![h.typ, h.flags]
}

/// The 24 encoded bytes of a header.
pub open spec fn header_bytes(h: DcpHeader) -> Seq<u8> {
    header_prefix(h) + h.checksum@
}

/// A header followed by its payload, as sent on the wire.
pub open spec fn encode_packet(h: DcpHeader, payload: Seq<u8>) -> Seq<u8> {
    header_bytes(h) + payload
}

/// The bytes the checksum is computed over: the header with a zeroed
/// checksum field, then the payload.
pub open spec fn checksum_input(h: DcpHeader, payload: Seq<u8>) -> Seq<u8> {
    header_prefix(h) + seq![0u8, 0u8, 0u8, 0u8] + payload
}

/// The checksum a header carrying `payload` should hold: the first four
/// bytes of the BLAKE3 digest of `checksum_input`.
pub open spec fn expected_checksum(h: DcpHeader, payload: Seq<u8>) -> Seq<u8> {
    blake3_digest(checksum_input(h, payload)).subrange(0, 4)
}

/// `h` carries the right checksum for `payload`.
pub open spec fn checksum_valid(h: DcpHeader, payload: Seq<u8>) -> bool {
    h.checksum == array4(expected_checksum(h, payload))
}

/// The four bytes of `s` as an array.
pub open spec fn array4(s: Seq<u8>) -> [u8; 4] {
    [s[0], s[1], s[2], s[3]]
}

/// The header encoded in the first 24 bytes of `data`.
pub open spec fn decode_header(data: Seq<u8>) -> DcpHeader {
    DcpHeader {
        magic: u32_at(data, 0),
        session_id: u32_at(data, 4),
        sequence: u32_at(data, 8),
        window: u32_at(data, 12),
        payload_len: u16_at(data, 16),
        typ: data[18],
        flags: data[19],
        checksum: array4(data.subrange(20, 24)),
    }
}

/// `h` with its checksum set for `payload`.
pub open spec fn with_checksum(h: DcpHeader, payload: Seq<u8>) -> DcpHeader {
    DcpHeader { checksum: array4(expected_checksum(h, payload)), ..h }
}

/// Two headers that differ at most in their checksum.
pub open spec fn same_but_checksum(a: DcpHeader, b: DcpHeader) -> bool {
    &&& a.magic == b.magic
    &&& a.session_id == b.session_id
    &&& a.sequence == b.sequence
    &&& a.window == b.window
    &&& a.payload_len == b.payload_len
    &&& a.typ == b.typ
    &&& a.flags == b.flags
}

impl DcpHeader {
    /// A fresh header: unmasked magic, sequence 0, window 256, payload
    /// length 1024 and a zero checksum (computed later).
    pub fn new(typ: u8, flags: u8, session_id: u32) -> (r: Self)
        ensures
            r.magic == DCP_MAGIC,
            r.typ == typ,
            r.flags == flags,
            r.session_id == session_id,
            r.sequence == 0,
            r.window == 256,
            r.payload_len == 1024,
            r.checksum == [0u8, 0u8, 0u8, 0u8],
    {
        let r = DcpHeader {
            magic: DCP_MAGIC,
            typ,
            flags,
            session_id,
            sequence: 0,
            window: 256,
            payload_len: 1024,
            checksum: [0u8; 4],
        };
        assert(r.checksum =~= [0u8, 0u8, 0u8, 0u8]);
        r
    }

    /// Masks the magic number with `salt`.
    pub fn set_magic_xor(&mut self, salt: u32)
        ensures
            final(self).magic == DCP_MAGIC ^ salt,
            same_but_magic(*old(self), *final(self)),
    {
        self.magic = DCP_MAGIC ^ salt;
    }

    /// The magic number unmasked with `salt`.
    pub fn original_magic(&self, salt: u32) -> (r: u32)
        ensures
            r == self.magic ^ salt,
    {
        self.magic ^ salt
    }

    /// The first 24 encoded bytes with the checksum field left zero.
    pub fn to_bytes_without_checksum(&self) -> (r: Vec<u8>)
        ensures
            r@ == header_prefix(*self) + seq![0u8, 0u8, 0u8, 0u8],
    {
        let mut buf: Vec<u8> = Vec::new();
        push_u32_le(&mut buf, self.magic);
        push_u32_le(&mut buf, self.session_id);
        push_u32_le(&mut buf, self.sequence);
        push_u32_le(&mut buf, self.window);
        push_u16_le(&mut buf, self.payload_len);
        buf.push(self.typ);
        buf.push(self.flags);
        buf.push(0u8);
        buf.push(0u8);
        buf.push(0u8);
        buf.push(0u8);
        assert(buf@ =~= header_prefix(*self) + seq![0u8, 0u8, 0u8, 0u8]);
        buf
    }

    /// The bytes the checksum is computed over for `payload`.
    pub fn checksum_input(&self, payload: &[u8]) -> (r: Vec<u8>)
        ensures
            r@ == checksum_input(*self, payload@),
    {
        let mut buf = self.to_bytes_without_checksum();
        append_bytes(&mut buf, payload);
        buf
    }

    /// Stores the first four bytes of a BLAKE3 digest as the checksum.
    pub fn set_checksum_from_digest(&mut self, digest: &[u8; 32])
        ensures
            *final(self) == (DcpHeader { checksum: array4(digest@.subrange(0, 4)), ..*old(self) }),
    {
        self.checksum = [digest[0], digest[1], digest[2], digest[3]];
    }

    /// Whether the checksum equals the first four bytes of a BLAKE3 digest.
    pub fn checksum_matches_digest(&self, digest: &[u8; 32]) -> (r: bool)
        ensures
            r == (self.checksum == array4(digest@.subrange(0, 4))),
    {
        let ok = self.checksum[0] == digest[0] && self.checksum[1] == digest[1] && self.checksum[2]
            == digest[2] && self.checksum[3] == digest[3];
        if ok {
            assert(self.checksum =~= array4(digest@.subrange(0, 4)));
        }
        ok
    }

    /// Computes and stores the checksum of this header with `payload`.
    pub fn compute_checksum(&mut self, payload: &[u8])
        ensures
            *final(self) == with_checksum(*old(self), payload@),
            checksum_valid(*final(self), payload@),
    {
        let input = self.checksum_input(payload);
        let digest = blake3_hash(input.as_slice());
        self.set_checksum_from_digest(&digest);
        proof {
            lemma_checksum_verifies(*old(self), payload@);
        }
    }

    /// Whether the stored checksum matches this header with `payload`.
    pub fn verify_checksum(&self, payload: &[u8]) -> (r: bool)
        ensures
            r == checksum_valid(*self, payload@),
    {
        let input = self.checksum_input(payload);
        let digest = blake3_hash(input.as_slice());
        self.checksum_matches_digest(&digest)
    }

    /// The full packet: the 24 encoded header bytes followed by `payload`.
    pub fn to_bytes(&self, payload: &[u8]) -> (r: Vec<u8>)
        ensures
            r@ == encode_packet(*self, payload@),
    {
        let mut buf = self.to_bytes_without_checksum();
        buf.set(20, self.checksum[0]);
        buf.set(21, self.checksum[1]);
        buf.set(22, self.checksum[2]);
        buf.set(23, self.checksum[3]);
        assert(buf@ =~= header_bytes(*self));
        append_bytes(&mut buf, payload);
        buf
    }

    /// The header as text (what it displays as): see `header_text`.
    pub fn display_string(&self) -> (r: String)
        ensures
            r@ == header_text(*self),
    {
        let mut out = String::from_str("DCP[type=");
        append_decimal(&mut out, self.typ as u64);
        out.append(", flags=0x");
        append_hex(&mut out, self.flags as u64, 2);
        out.append(", session=");
        append_decimal(&mut out, self.session_id as u64);
        out.append(", seq=");
        append_decimal(&mut out, self.sequence as u64);
        out.append(", window=");
        append_decimal(&mut out, self.window as u64);
        out.append(", len=");
        append_decimal(&mut out, self.payload_len as u64);
        out.append(", magic=0x");
        append_hex(&mut out, self.magic as u64, 8);
        out.append("]");
        out
    }

    /// Reads a header from the first 24 bytes of `data`; `None` when there
    /// are fewer than 24.
    pub fn from_bytes(data: &[u8]) -> (r: Option<Self>)
        ensures
            data@.len() < 24 ==> r is None,
            data@.len() >= 24 ==> r == Some(decode_header(data@)),
    {
        if data.len() < HEADER_LEN {
            return None;
        }
        let h = DcpHeader {
            magic: read_u32_le(data, 0),
            session_id: read_u32_le(data, 4),
            sequence: read_u32_le(data, 8),
            window: read_u32_le(data, 12),
            payload_len: read_u16_le(data, 16),
            typ: data[18],
            flags: data[19],
            checksum: [data[20], data[21], data[22], data[23]],
        };
        Some(h)
    }
}

/// Two headers that differ at most in their magic number.
pub open spec fn same_but_magic(a: DcpHeader, b: DcpHeader) -> bool {
    &&& a.session_id == b.session_id
    &&& a.sequence == b.sequence
    &&& a.window == b.window
    &&& a.payload_len == b.payload_len
    &&& a.typ == b.typ
    &&& a.flags == b.flags
    &&& a.checksum == b.checksum
}

/// Decoding an encoded packet gives back the header, and the bytes after
/// the header are the payload.
pub proof fn lemma_encode_decode(h: DcpHeader, payload: Seq<u8>)
    ensures
        decode_header(encode_packet(h, payload)) == h,
        encode_packet(h, payload).len() == 24 + payload.len(),
        encode_packet(h, payload).subrange(24, encode_packet(h, payload).len() as int) == payload,
{
    let d = encode_packet(h, payload);
    lemma_u32_le_roundtrip(h.magic);
    lemma_u32_le_roundtrip(h.session_id);
    lemma_u32_le_roundtrip(h.sequence);
    lemma_u32_le_roundtrip(h.window);
    lemma_u16_le_roundtrip(h.payload_len);
    assert(array4(d.subrange(20, 24)) =~= h.checksum);
    assert(d.subrange(24, d.len() as int) =~= payload);
}

/// Encoding the header read from `data`, followed by the rest of `data`,
/// gives back `data`.
pub proof fn lemma_decode_encode(data: Seq<u8>)
    requires
        data.len() >= 24,
    ensures
        encode_packet(decode_header(data), data.subrange(24, data.len() as int)) == data,
{
    lemma_le_u32_roundtrip(data[0], data[1], data[2], data[3]);
    lemma_le_u32_roundtrip(data[4], data[5], data[6], data[7]);
    lemma_le_u32_roundtrip(data[8], data[9], data[10], data[11]);
    lemma_le_u32_roundtrip(data[12], data[13], data[14], data[15]);
    lemma_le_u16_roundtrip(data[16], data[17]);
    assert(array4(data.subrange(20, 24))@ =~= data.subrange(20, 24));
    assert(encode_packet(decode_header(data), data.subrange(24, data.len() as int)) =~= data);
}

/// A header whose checksum was computed for a payload passes the check for
/// that payload.
pub proof fn lemma_checksum_verifies(h: DcpHeader, payload: Seq<u8>)
    ensures
        checksum_valid(with_checksum(h, payload), payload),
{
    assert(checksum_input(h, payload) =~= checksum_input(with_checksum(h, payload), payload));
}

/// The checksum covers every field but itself, so headers that differ only
/// in the checksum expect the same checksum.
pub proof fn lemma_checksum_ignores_checksum_field(a: DcpHeader, b: DcpHeader, payload: Seq<u8>)
    requires
        same_but_checksum(a, b),
    ensures
        expected_checksum(a, payload) == expected_checksum(b, payload),
{
    assert(checksum_input(a, payload) =~= checksum_input(b, payload));
}

/// Unmasking a masked magic number with the same salt restores it.
pub proof fn lemma_magic_unmask(salt: u32)
    ensures
        (DCP_MAGIC ^ salt) ^ salt == DCP_MAGIC,
{
    assert((0xDC012026u32 ^ salt) ^ salt == 0xDC012026u32) by (bit_vector);
}

} // verus!
