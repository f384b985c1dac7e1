//! The concurrent maps of the `dashmap` crate that the library keeps its
//! tables in. Each map type the library uses has a name for its contents and
//! one trusted wrapper per method the library calls; a `DashMap` behaves as a
//! hash map keyed by `Eq`/`Hash` of its keys, and its contents are always a
//! finite map. The wrappers take the map by `&mut` so that its change is seen
//! by the verifier, though the crate's methods only need `&`.

use vstd::prelude::*;
use dashmap::DashMap;
use crate::dht::NodeInfo;
use crate::tunnel::{Tunnel, TunnelState};
use crate::storage::StorageBlock;

verus! {

#[verifier::external_type_specification]
#[verifier::external_body]
#[verifier::reject_recursive_types(K)]
#[verifier::reject_recursive_types(V)]
#[verifier::reject_recursive_types(S)]
pub struct ExDashMap<K, V, S>(DashMap<K, V, S>);

// ---------------------------------------------------------------------------
// Out-of-order receive buffer: sequence number -> payload.

/// What a receive buffer holds: sequence number to payload bytes.
pub uninterp spec fn recv_buffer_contents(m: DashMap<u32, Vec<u8>>) -> Map<u32, Seq<u8>>;

/// `DashMap::new()`: an empty buffer.
#[verifier::external_body]
pub(crate) fn recv_buffer_new() -> (r: DashMap<u32, Vec<u8>>)
    ensures
        recv_buffer_contents(r).dom().is_empty(),
{
    DashMap::new()
}

/// `DashMap::insert`: maps `key` to `value`, replacing an earlier value.
#[verifier::external_body]
pub(crate) fn recv_buffer_insert(m: &mut DashMap<u32, Vec<u8>>, key: u32, value: Vec<u8>)
    ensures
        recv_buffer_contents(*final(m)) == recv_buffer_contents(*old(m)).insert(key, value@),
        recv_buffer_contents(*final(m)).dom().finite(),
{
    m.insert(key, value);
}

/// `DashMap::remove`: takes the value at `key` out of the map, if any.
#[verifier::external_body]
pub(crate) fn recv_buffer_remove(m: &mut DashMap<u32, Vec<u8>>, key: u32) -> (r: Option<Vec<u8>>)
    ensures
        recv_buffer_contents(*final(m)) == recv_buffer_contents(*old(m)).remove(key),
        recv_buffer_contents(*final(m)).dom().finite(),
        match r {
            Some(v) => recv_buffer_contents(*old(m)).contains_key(key) && v@
                == recv_buffer_contents(*old(m))[key],
            None => !recv_buffer_contents(*old(m)).contains_key(key),
        },
{
    m.remove(&key).map(|(_, v)| v)
}

/// `DashMap::clear`: empties the map.
#[verifier::external_body]
pub(crate) fn recv_buffer_clear(m: &mut DashMap<u32, Vec<u8>>)
    ensures
        recv_buffer_contents(*final(m)).dom().is_empty(),
{
    m.clear();
}

} // verus!

verus! {

// ---------------------------------------------------------------------------
// Routing table: node id -> node information.

/// What a routing table holds: node id to node information.
pub uninterp spec fn node_table_contents(m: DashMap<[u8; 32], NodeInfo>) -> Map<[u8; 32], NodeInfo>;

/// `DashMap::new()`: an empty table.
#[verifier::external_body]
pub(crate) fn node_table_new() -> (r: DashMap<[u8; 32], NodeInfo>)
    ensures
        node_table_contents(r).dom().is_empty(),
{
    DashMap::new()
}

/// `DashMap::len`: the number of entries.
#[verifier::external_body]
pub(crate) fn node_table_len(m: &DashMap<[u8; 32], NodeInfo>) -> (r: usize)
    ensures
        r == node_table_contents(*m).dom().len(),
{
    m.len()
}

/// `DashMap::insert`: maps `key` to `value`, replacing an earlier value.
#[verifier::external_body]
pub(crate) fn node_table_insert(m: &mut DashMap<[u8; 32], NodeInfo>, key: [u8; 32], value: NodeInfo)
    ensures
        node_table_contents(*final(m)) == node_table_contents(*old(m)).insert(key, value),
        node_table_contents(*final(m)).dom().finite(),
{
    m.insert(key, value);
}

/// `DashMap::remove`: drops the entry at `key`, if any.
#[verifier::external_body]
pub(crate) fn node_table_remove(m: &mut DashMap<[u8; 32], NodeInfo>, key: &[u8; 32])
    ensures
        node_table_contents(*final(m)) == node_table_contents(*old(m)).remove(*key),
        node_table_contents(*final(m)).dom().finite(),
{
    m.remove(key);
}

/// `DashMap::get` followed by a clone of the value found.
#[verifier::external_body]
pub(crate) fn node_table_get(m: &DashMap<[u8; 32], NodeInfo>, key: &[u8; 32]) -> (r: Option<NodeInfo>)
    ensures
        match r {
            Some(v) => node_table_contents(*m).contains_key(*key) && v == node_table_contents(
                *m,
            )[*key],
            None => !node_table_contents(*m).contains_key(*key),
        },
{
    m.get(key).map(|e| e.value().clone())
}

/// `DashMap::iter`, collecting a copy of every entry. Each key appears once;
/// the order is the map's and is not promised.
#[verifier::external_body]
pub(crate) fn node_table_entries(m: &DashMap<[u8; 32], NodeInfo>) -> (r: Vec<([u8; 32], NodeInfo)>)
    ensures
        forall|i: int|
            0 <= i < r@.len() ==> node_table_contents(*m).contains_key(#[trigger] r@[i].0)
                && node_table_contents(*m)[r@[i].0] == r@[i].1,
        forall|i: int, j: int| 0 <= i < j < r@.len() ==> #[trigger] r@[i].0 != #[trigger] r@[j].0,
        forall|k: [u8; 32]|
            #[trigger] node_table_contents(*m).contains_key(k) ==> exists|i: int|
                0 <= i < r@.len() && #[trigger] r@[i].0 == k,
{
    m.iter().map(|e| (*e.key(), e.value().clone())).collect()
}

} // verus!

verus! {

// ---------------------------------------------------------------------------
// Tunnel table: tunnel id -> tunnel.

/// What a tunnel table holds: tunnel id to tunnel.
pub uninterp spec fn tunnel_table_contents(m: DashMap<u32, Tunnel>) -> Map<u32, Tunnel>;

/// `DashMap::new()`: an empty table.
#[verifier::external_body]
pub(crate) fn tunnel_table_new() -> (r: DashMap<u32, Tunnel>)
    ensures
        tunnel_table_contents(r).dom().is_empty(),
{
    DashMap::new()
}

/// `DashMap::insert`: maps `key` to `value`, replacing an earlier value.
#[verifier::external_body]
pub(crate) fn tunnel_table_insert(m: &mut DashMap<u32, Tunnel>, key: u32, value: Tunnel)
    ensures
        tunnel_table_contents(*final(m)) == tunnel_table_contents(*old(m)).insert(key, value),
        tunnel_table_contents(*final(m)).dom().finite(),
{
    m.insert(key, value);
}

/// `DashMap::remove`: takes the tunnel at `key` out of the table, if any.
#[verifier::external_body]
pub(crate) fn tunnel_table_remove(m: &mut DashMap<u32, Tunnel>, key: u32) -> (r: Option<Tunnel>)
    ensures
        tunnel_table_contents(*final(m)) == tunnel_table_contents(*old(m)).remove(key),
        tunnel_table_contents(*final(m)).dom().finite(),
        match r {
            Some(v) => tunnel_table_contents(*old(m)).contains_key(key) && v
                == tunnel_table_contents(*old(m))[key],
            None => !tunnel_table_contents(*old(m)).contains_key(key),
        },
{
    m.remove(&key).map(|(_, v)| v)
}

/// `DashMap::iter`, collecting the id, state and round-trip time of every
/// tunnel. Each id appears once; the order is the map's and is not promised.
#[verifier::external_body]
pub(crate) fn tunnel_table_summaries(m: &DashMap<u32, Tunnel>) -> (r: Vec<(u32, TunnelState, u32)>)
    ensures
        forall|i: int|
            0 <= i < r@.len() ==> tunnel_table_contents(*m).contains_key(#[trigger] r@[i].0)
                && tunnel_table_contents(*m)[r@[i].0].state == r@[i].1
                && tunnel_table_contents(*m)[r@[i].0].rtt_ms == r@[i].2,
        forall|i: int, j: int| 0 <= i < j < r@.len() ==> #[trigger] r@[i].0 != #[trigger] r@[j].0,
        forall|k: u32|
            #[trigger] tunnel_table_contents(*m).contains_key(k) ==> exists|i: int|
                0 <= i < r@.len() && #[trigger] r@[i].0 == k,
{
    m.iter().map(|e| (*e.key(), e.value().state, e.value().rtt_ms)).collect()
}

} // verus!

verus! {

// ---------------------------------------------------------------------------
// Block store: content hash -> block.

/// What a block store holds: content hash to block.
pub uninterp spec fn block_table_contents(m: DashMap<[u8; 32], StorageBlock>) -> Map<[u8; 32], StorageBlock>;

/// `DashMap::new()`: an empty store.
#[verifier::external_body]
pub(crate) fn block_table_new() -> (r: DashMap<[u8; 32], StorageBlock>)
    ensures
        block_table_contents(r).dom().is_empty(),
{
    DashMap::new()
}

/// `DashMap::len`: the number of blocks.
#[verifier::external_body]
pub(crate) fn block_table_len(m: &DashMap<[u8; 32], StorageBlock>) -> (r: usize)
    ensures
        r == block_table_contents(*m).dom().len(),
{
    m.len()
}

/// `DashMap::contains_key`.
#[verifier::external_body]
pub(crate) fn block_table_contains(m: &DashMap<[u8; 32], StorageBlock>, key: &[u8; 32]) -> (r: bool)
    ensures
        r == block_table_contents(*m).contains_key(*key),
{
    m.contains_key(key)
}

/// `DashMap::insert`: maps `key` to `value`, replacing an earlier value.
#[verifier::external_body]
pub(crate) fn block_table_insert(m: &mut DashMap<[u8; 32], StorageBlock>, key: [u8; 32], value: StorageBlock)
    ensures
        block_table_contents(*final(m)) == block_table_contents(*old(m)).insert(key, value),
        block_table_contents(*final(m)).dom().finite(),
{
    m.insert(key, value);
}

/// `DashMap::remove`: takes the block at `key` out of the store, if any.
#[verifier::external_body]
pub(crate) fn block_table_remove(m: &mut DashMap<[u8; 32], StorageBlock>, key: &[u8; 32]) -> (r: Option<StorageBlock>)
    ensures
        block_table_contents(*final(m)) == block_table_contents(*old(m)).remove(*key),
        block_table_contents(*final(m)).dom().finite(),
        match r {
            Some(v) => block_table_contents(*old(m)).contains_key(*key) && v
                == block_table_contents(*old(m))[*key],
            None => !block_table_contents(*old(m)).contains_key(*key),
        },
{
    m.remove(key).map(|(_, v)| v)
}

/// `DashMap::get` followed by a clone of the block found.
#[verifier::external_body]
pub(crate) fn block_table_get(m: &DashMap<[u8; 32], StorageBlock>, key: &[u8; 32]) -> (r: Option<StorageBlock>)
    ensures
        match r {
            Some(v) => block_table_contents(*m).contains_key(*key) && v == block_table_contents(
                *m,
            )[*key],
            None => !block_table_contents(*m).contains_key(*key),
        },
{
    m.get(key).map(|e| e.value().clone())
}

/// `DashMap::iter`, collecting each block's hash key and how many nodes
/// store it. Each key appears once; the order is the map's and is not
/// promised.
#[verifier::external_body]
pub(crate) fn block_table_replicas(m: &DashMap<[u8; 32], StorageBlock>) -> (r: Vec<([u8; 32], usize)>)
    ensures
        forall|i: int|
            0 <= i < r@.len() ==> block_table_contents(*m).contains_key(#[trigger] r@[i].0)
                && block_table_contents(*m)[r@[i].0].stored_by@.len() == r@[i].1,
        forall|i: int, j: int| 0 <= i < j < r@.len() ==> #[trigger] r@[i].0 != #[trigger] r@[j].0,
        forall|k: [u8; 32]|
            #[trigger] block_table_contents(*m).contains_key(k) ==> exists|i: int|
                0 <= i < r@.len() && #[trigger] r@[i].0 == k,
{
    m.iter().map(|e| (*e.key(), e.value().stored_by.len())).collect()
}

// ---------------------------------------------------------------------------
// Storage deposits: node id -> deposit.

/// What a deposit table holds: node id to deposit.
pub uninterp spec fn deposit_table_contents(m: DashMap<[u8; 32], u64>) -> Map<[u8; 32], u64>;

/// `DashMap::new()`: an empty table.
#[verifier::external_body]
pub(crate) fn deposit_table_new() -> (r: DashMap<[u8; 32], u64>)
    ensures
        deposit_table_contents(r).dom().is_empty(),
{
    DashMap::new()
}

/// `DashMap::len`: the number of deposits.
#[verifier::external_body]
pub(crate) fn deposit_table_len(m: &DashMap<[u8; 32], u64>) -> (r: usize)
    ensures
        r == deposit_table_contents(*m).dom().len(),
{
    m.len()
}

} // verus!
