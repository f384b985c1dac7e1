//! The decisions of a node's main loop: what becomes of an incoming
//! datagram, and whether a timer tick sends a decoy.

use vstd::prelude::*;
use crate::camouflage::{is_shadow_ip, remembered, v4_pool, CIPPool, DecoyScheduler};
use crate::header::{checksum_valid, decode_header, DcpHeader, HEADER_LEN};
use crate::net::IpAddress;
use crate::packet::{packet_from_code, PacketType};

verus! {

/// The fate of an incoming datagram.
#[derive(Debug, Clone, Copy, PartialEq, Eq)]
pub enum Inbound {
    /// Shorter than a header: ignored.
    TooShort,
    /// The header's checksum does not match the payload: ignored.
    BadChecksum(DcpHeader),
    /// A sound packet, with its kind.
    Packet(DcpHeader, PacketType),
}

/// What becomes of the datagram `data`.
pub open spec fn inbound_of(data: Seq<u8>) -> Inbound {
    if data.len() < 24 {
        Inbound::TooShort
    } else {
        let h = decode_header(data);
        if checksum_valid(h, data.subrange(24, data.len() as int)) {
            Inbound::Packet(h, packet_from_code(h.typ))
        } else {
            Inbound::BadChecksum(h)
        }
    }
}

/// Reads the header of a datagram, checks its checksum against the bytes
/// after it and names the packet kind.
pub fn classify_datagram(data: &[u8]) -> (r: Inbound)
    ensures
        r == inbound_of(data@),
{
    match DcpHeader::from_bytes(data) {
        None => Inbound::TooShort,
        Some(h) => {
            let payload = vstd::slice::slice_subrange(data, HEADER_LEN, data.len());
            if h.verify_checksum(payload) {
                Inbound::Packet(h, PacketType::from_code(h.typ))
            } else {
                Inbound::BadChecksum(h)
            }
        },
    }
}

/// What a decoy timer tick does once the scheduler's draw `send` is known:
/// with `send`, the next camouflage address and a noise packet to send from
/// it; without, nothing, and the pool is untouched.
pub fn decoy_step(decoy: &DecoyScheduler, pool: &mut CIPPool, send: bool) -> (r: Option<(IpAddress, Vec<u8>)>)
    requires
        old(pool).wf(),
    ensures
        final(pool).wf(),
        r is Some <==> send,
        !send ==> *final(pool) == *old(pool),
        r matches Some(d) ==> {
            &&& d.1@.len() == decoy.noise_size()
            &&& final(pool).recent() == remembered(old(pool).recent(), d.0)
            &&& final(pool).cooldown_period() == old(pool).cooldown_period()
            &&& !old(pool).recent().contains(d.0)
            &&& (is_shadow_ip(d.0) && final(pool).rotation() == old(pool).rotation()) || (
            final(pool).rotation() == (old(pool).rotation() + 1) % 19 && d.0 == IpAddress::V4(
                v4_pool()[final(pool).rotation() as int],
            ))
        },
{
    if send {
        let ip = pool.next_ip();
        let noise = decoy.generate_noise();
        Some((ip, noise))
    } else {
        None
    }
}

/// One decoy timer tick: the scheduler draws whether to send a decoy (never
/// with background noise off), then `decoy_step` acts on the draw.
pub fn decoy_tick(decoy: &DecoyScheduler, pool: &mut CIPPool) -> (r: Option<(IpAddress, Vec<u8>)>)
    requires
        old(pool).wf(),
    ensures
        final(pool).wf(),
        !decoy.noise_enabled() ==> r is None,
        r is None ==> *final(pool) == *old(pool),
        r matches Some(d) ==> {
            &&& d.1@.len() == decoy.noise_size()
            &&& final(pool).recent() == remembered(old(pool).recent(), d.0)
            &&& final(pool).cooldown_period() == old(pool).cooldown_period()
            &&& !old(pool).recent().contains(d.0)
            &&& (is_shadow_ip(d.0) && final(pool).rotation() == old(pool).rotation()) || (
            final(pool).rotation() == (old(pool).rotation() + 1) % 19 && d.0 == IpAddress::V4(
                v4_pool()[final(pool).rotation() as int],
            ))
        },
{
    let send = decoy.should_send_decoy();
    decoy_step(decoy, pool, send)
}

} // verus!
