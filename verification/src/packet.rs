//! Packet kinds and the flag sub-fields of the DCP header.

use vstd::prelude::*;

verus! {

/// Kind of a DCP packet, carried in the header's `typ` byte.
#[derive(Debug, Clone, Copy, PartialEq, Eq)]
pub enum PacketType {
    Probe,
    Syn,
    SynAck,
    Ack,
    Heartbeat,
    Data,
    Update,
    Storage,
    OfflineProbe,
    OfflineAck,
    PhishingVote,
}

/// Wire code of each packet kind.
pub open spec fn packet_code(t: PacketType) -> u8 {
    match t {
        PacketType::Probe => 0,
        PacketType::Syn => 1,
        PacketType::SynAck => 2,
        PacketType::Ack => 3,
        PacketType::Heartbeat => 4,
        PacketType::Data => 5,
        PacketType::Update => 6,
        PacketType::Storage => 7,
        PacketType::OfflineProbe => 8,
        PacketType::OfflineAck => 9,
        PacketType::PhishingVote => 10,
    }
}

/// Packet kind read from a wire code; unknown codes are treated as data.
pub open spec fn packet_from_code(v: u8) -> PacketType {
    if v == 0 {
        PacketType::Probe
    } else if v == 1 {
        PacketType::Syn
    } else if v == 2 {
        PacketType::SynAck
    } else if v == 3 {
        PacketType::Ack
    } else if v == 4 {
        PacketType::Heartbeat
    } else if v == 6 {
        PacketType::Update
    } else if v == 7 {
        PacketType::Storage
    } else if v == 8 {
        PacketType::OfflineProbe
    } else if v == 9 {
        PacketType::OfflineAck
    } else if v == 10 {
        PacketType::PhishingVote
    } else {
        PacketType::Data
    }
}

impl PacketType {
    /// The wire code of this packet kind.
    pub fn code(self) -> (r: u8)
        ensures
            r == packet_code(self),
    {
        match self {
            PacketType::Probe => 0,
            PacketType::Syn => 1,
            PacketType::SynAck => 2,
            PacketType::Ack => 3,
            PacketType::Heartbeat => 4,
            PacketType::Data => 5,
            PacketType::Update => 6,
            PacketType::Storage => 7,
            PacketType::OfflineProbe => 8,
            PacketType::OfflineAck => 9,
            PacketType::PhishingVote => 10,
        }
    }

    /// The packet kind of a wire code (codes above 10 read as `Data`).
    pub fn from_code(v: u8) -> (r: PacketType)
        ensures
            r == packet_from_code(v),
    {
        match v {
            0 => PacketType::Probe,
            1 => PacketType::Syn,
            2 => PacketType::SynAck,
            3 => PacketType::Ack,
            4 => PacketType::Heartbeat,
            5 => PacketType::Data,
            6 => PacketType::Update,
            7 => PacketType::Storage,
            8 => PacketType::OfflineProbe,
            9 => PacketType::OfflineAck,
            10 => PacketType::PhishingVote,
            _ => PacketType::Data,
        }
    }
}

impl From<u8> for PacketType {
    fn from(v: u8) -> (r: PacketType) {
        PacketType::from_code(v)
    }
}

impl vstd::std_specs::convert::FromSpecImpl<u8> for PacketType {
    open spec fn obeys_from_spec() -> bool {
        true
    }

    open spec fn from_spec(v: u8) -> PacketType {
        packet_from_code(v)
    }
}

impl From<PacketType> for u8 {
    fn from(v: PacketType) -> (r: u8) {
        v.code()
    }
}

impl vstd::std_specs::convert::FromSpecImpl<PacketType> for u8 {
    open spec fn obeys_from_spec() -> bool {
        true
    }

    open spec fn from_spec(v: PacketType) -> u8 {
        packet_code(v)
    }
}

/// Every packet kind survives the trip through its wire code.
pub proof fn lemma_packet_code_roundtrip(t: PacketType)
    ensures
        packet_from_code(packet_code(t)) == t,
{
}

/// A wire code read as a packet kind and written back is unchanged when it is
/// one of the eleven known codes, and becomes the data code otherwise.
pub proof fn lemma_packet_code_canonical(v: u8)
    ensures
        v <= 10 ==> packet_code(packet_from_code(v)) == v,
        v > 10 ==> packet_code(packet_from_code(v)) == 5,
{
}

/// Camouflage mode (header flag bits 6-7).
#[derive(Debug, Clone, Copy, PartialEq, Eq)]
pub enum CamouflageMode {
    QUIC,
    TLS,
    WebRTC,
    Random,
}

/// Cipher suite (header flag bits 4-5).
#[derive(Debug, Clone, Copy, PartialEq, Eq)]
pub enum CipherSuite {
    Classic,
    Hybrid,
    Reserved,
    PurePostQuantum,
}

} // verus!
