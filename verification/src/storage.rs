//! Content-addressed block storage with replica checks.

use vstd::prelude::*;
use vstd::string::StringExecFns;
use crate::blake::{blake3_digest, blake3_hash};
use crate::clock::unix_time_secs;
use crate::concurrent::{
    block_table_contains, block_table_contents, block_table_get, block_table_insert,
    block_table_len, block_table_new, block_table_remove, block_table_replicas,
    deposit_table_contents, deposit_table_len, deposit_table_new,
};
use dashmap::DashMap;

verus! {

/// Seconds without access after which a block counts as cold (seven days).
pub const COLD_AFTER_SECS: u64 = 604800;

/// A stored block (at most 1 MB), addressed by the hash of its content.
#[derive(Debug, Clone)]
pub struct StorageBlock {
    pub hash: [u8; 32],
    pub data: Vec<u8>,
    /// Ids of the nodes holding a replica.
    pub stored_by: Vec<[u8; 32]>,
    /// Times in seconds since the Unix epoch.
    pub created_at: u64,
    pub last_accessed: u64,
    pub access_count: u64,
}

/// The block has not been accessed for more than seven days at time `now`
/// (seconds); a block accessed after `now` is not cold.
pub open spec fn cold_at(b: StorageBlock, now: u64) -> bool {
    now >= b.last_accessed && now - b.last_accessed > 604800
}

impl StorageBlock {
    /// The BLAKE3 digest addressing `data`.
    pub fn compute_hash(data: &[u8]) -> (r: [u8; 32])
        ensures
            r@ == blake3_digest(data@),
    {
        blake3_hash(data)
    }

    /// A block of `data`, addressed by its hash, created at `now` (seconds
    /// since the Unix epoch), never accessed, held by no node yet.
    pub fn new_at(data: Vec<u8>, now: u64) -> (r: Self)
        ensures
            r.hash@ == blake3_digest(data@),
            r.data == data,
            r.stored_by@ == Seq::<[u8; 32]>::empty(),
            r.created_at == now,
            r.last_accessed == 0,
            r.access_count == 0,
    {
        let hash = Self::compute_hash(data.as_slice());
        StorageBlock { hash, data, stored_by: Vec::new(), created_at: now, last_accessed: 0, access_count: 0 }
    }

    /// A block of `data` created now: see `new_at`.
    pub fn new(data: Vec<u8>) -> (r: Self)
        ensures
            r.hash@ == blake3_digest(data@),
            r.data == data,
            r.stored_by@ == Seq::<[u8; 32]>::empty(),
            r.last_accessed == 0,
            r.access_count == 0,
    {
        Self::new_at(data, unix_time_secs())
    }

    /// Whether the block is cold at time `now` (seconds).
    pub fn is_cold_at(&self, now: u64) -> (r: bool)
        ensures
            r == cold_at(*self, now),
    {
        now >= self.last_accessed && now - self.last_accessed > COLD_AFTER_SECS
    }

    /// Whether the block is cold now.
    pub fn is_cold(&self) -> (r: bool)
        ensures
            exists|now: u64| r == #[trigger] cold_at(*self, now),
    {
        let now = unix_time_secs();
        self.is_cold_at(now)
    }

    /// Records an access at time `now` (seconds).
    pub fn access_at(&mut self, now: u64)
        requires
            old(self).access_count < u64::MAX,
        ensures
            *final(self) == (StorageBlock {
                last_accessed: now,
                access_count: (old(self).access_count + 1) as u64,
                ..*old(self)
            }),
    {
        self.last_accessed = now;
        self.access_count = self.access_count + 1;
    }

    /// Records an access now.
    pub fn access(&mut self)
        requires
            old(self).access_count < u64::MAX,
        ensures
            *final(self) == (StorageBlock {
                last_accessed: final(self).last_accessed,
                access_count: (old(self).access_count + 1) as u64,
                ..*old(self)
            }),
    {
        let now = unix_time_secs();
        self.access_at(now);
    }
}

/// A proof that a node stores a block.
#[derive(Debug, Clone)]
pub struct StorageProof {
    pub block_hash: [u8; 32],
    pub node_id: [u8; 32],
    pub timestamp: u64,
    pub signature: Vec<u8>,
}

/// Storage statistics.
pub struct StorageStats {
    pub total_blocks: usize,
    pub used_bytes: u64,
    pub max_bytes: u64,
    pub deposits: usize,
}

/// Total payload bytes of the blocks in a finite store.
pub open spec fn stored_bytes(c: Map<[u8; 32], StorageBlock>) -> nat
    decreases c.dom().len(),
    when c.dom().finite()
{
    if c.dom().len() == 0 {
        0
    } else {
        let k = c.dom().choose();
        c[k].data@.len() + stored_bytes(c.remove(k))
    }
}

/// Removing one block takes exactly its bytes off the total.
pub proof fn lemma_stored_bytes_remove(c: Map<[u8; 32], StorageBlock>, k: [u8; 32])
    requires
        c.dom().finite(),
        c.contains_key(k),
    ensures
        stored_bytes(c) == c[k].data@.len() + stored_bytes(c.remove(k)),
    decreases c.dom().len(),
{
    assert(c.remove(k).dom() =~= c.dom().remove(k));
    let j = c.dom().choose();
    if j != k {
        assert(c.remove(j).dom() =~= c.dom().remove(j));
        lemma_stored_bytes_remove(c.remove(j), k);
        lemma_stored_bytes_remove(c.remove(k), j);
        assert(c.remove(j).remove(k) =~= c.remove(k).remove(j));
    }
}

/// Storing a block under `k` adds its bytes to the total of the store
/// without `k`.
pub proof fn lemma_stored_bytes_insert(c: Map<[u8; 32], StorageBlock>, k: [u8; 32], b: StorageBlock)
    requires
        c.dom().finite(),
    ensures
        stored_bytes(c.insert(k, b)) == b.data@.len() + stored_bytes(c.remove(k)),
        stored_bytes(c.remove(k)) <= stored_bytes(c),
{
    lemma_stored_bytes_remove(c.insert(k, b), k);
    assert(c.insert(k, b).remove(k) =~= c.remove(k));
    if c.contains_key(k) {
        lemma_stored_bytes_remove(c, k);
    } else {
        assert(c.remove(k) =~= c);
    }
}

/// The distributed block store of one node.
pub struct StorageEngine {
    local_storage: DashMap<[u8; 32], StorageBlock>,
    deposits: DashMap<[u8; 32], u64>,
    max_storage_bytes: u64,
    used_bytes: u64,
}

/// The bytes of the block stored under `k`, if any.
pub open spec fn held_bytes(c: Map<[u8; 32], StorageBlock>, k: [u8; 32]) -> int {
    if c.contains_key(k) {
        c[k].data@.len() as int
    } else {
        0
    }
}

/// The error text when a block does not fit.
pub open spec fn no_space_text() -> Seq<char> {
    "存储空间不足"@
}

impl StorageEngine {
    /// The blocks by hash.
    pub closed spec fn blocks(&self) -> Map<[u8; 32], StorageBlock> {
        block_table_contents(self.local_storage)
    }

    /// The deposits by node id.
    pub closed spec fn deposit_map(&self) -> Map<[u8; 32], u64> {
        deposit_table_contents(self.deposits)
    }

    /// Capacity in bytes.
    pub closed spec fn capacity(&self) -> u64 {
        self.max_storage_bytes
    }

    /// Bytes accounted as used.
    pub closed spec fn used(&self) -> u64 {
        self.used_bytes
    }

    /// The used bytes are exactly the bytes of the stored blocks, within
    /// capacity.
    pub closed spec fn wf(&self) -> bool {
        &&& self.blocks().dom().finite()
        &&& self.deposit_map().dom().finite()
        &&& stored_bytes(self.blocks()) == self.used_bytes
        &&& self.used_bytes <= self.max_storage_bytes
    }

    /// An empty store of `max_gb` GiB.
    pub fn new(max_gb: u64) -> (r: Self)
        requires
            max_gb * 1073741824 <= u64::MAX,
        ensures
            r.wf(),
            r.blocks() == Map::<[u8; 32], StorageBlock>::empty(),
            r.deposit_map() == Map::<[u8; 32], u64>::empty(),
            r.capacity() == max_gb * 1073741824,
            r.used() == 0,
    {
        let local_storage = block_table_new();
        let deposits = deposit_table_new();
        assert(block_table_contents(local_storage) =~= Map::<[u8; 32], StorageBlock>::empty());
        assert(deposit_table_contents(deposits) =~= Map::<[u8; 32], u64>::empty());
        StorageEngine {
            local_storage,
            deposits,
            max_storage_bytes: max_gb * 1024 * 1024 * 1024,
            used_bytes: 0,
        }
    }

    /// Stores `block` under its hash (replacing a block with that hash, whose
    /// bytes are freed) and accounts its bytes; fails with "存储空间不足" when
    /// the used bytes plus the block's would exceed capacity, changing
    /// nothing. The deposit is not checked.
    pub fn store_block(&mut self, block: StorageBlock, deposit: u64) -> (r: Result<(), String>)
        requires
            old(self).wf(),
        ensures
            final(self).wf(),
            final(self).capacity() == old(self).capacity(),
            final(self).deposit_map() == old(self).deposit_map(),
            old(self).used() + block.data@.len() > old(self).capacity() ==> {
                &&& r matches Err(e) && e@ == no_space_text()
                &&& final(self).blocks() == old(self).blocks()
                &&& final(self).used() == old(self).used()
            },
            old(self).used() + block.data@.len() <= old(self).capacity() ==> {
                &&& r is Ok
                &&& final(self).blocks() == old(self).blocks().insert(block.hash, block)
                &&& final(self).used() == old(self).used() - held_bytes(old(self).blocks(), block.hash)
                    + block.data@.len()
            },
    {
        let data_len = block.data.len() as u64;
        if data_len > self.max_storage_bytes - self.used_bytes {
            return Err(String::from_str("存储空间不足"));
        }
        let hash = block.hash;
        let ghost c = self.blocks();
        proof {
            lemma_stored_bytes_insert(c, hash, block);
        }
        match block_table_remove(&mut self.local_storage, &hash) {
            Some(earlier) => {
                proof {
                    lemma_stored_bytes_remove(c, hash);
                }
                self.used_bytes = self.used_bytes - earlier.data.len() as u64;
            },
            None => {
                assert(c.remove(hash) =~= c);
            },
        }
        block_table_insert(&mut self.local_storage, hash, block);
        assert(self.blocks() =~= c.insert(hash, block));
        self.used_bytes = self.used_bytes + data_len;
        Ok(())
    }

    /// The block with hash `hash`, after recording an access at `now`
    /// (seconds) in the stored block.
    pub fn get_block_at(&mut self, hash: &[u8; 32], now: u64) -> (r: Option<StorageBlock>)
        requires
            old(self).wf(),
            old(self).blocks().contains_key(*hash) ==> old(self).blocks()[*hash].access_count < u64::MAX,
        ensures
            final(self).wf(),
            final(self).capacity() == old(self).capacity(),
            final(self).used() == old(self).used(),
            final(self).deposit_map() == old(self).deposit_map(),
            !old(self).blocks().contains_key(*hash) ==> r is None && final(self).blocks() == old(self).blocks(),
            old(self).blocks().contains_key(*hash) ==> {
                let b = old(self).blocks()[*hash];
                let b2 = StorageBlock { last_accessed: now, access_count: (b.access_count + 1) as u64, ..b };
                &&& r == Some(b2)
                &&& final(self).blocks() == old(self).blocks().insert(*hash, b2)
            },
    {
        let ghost c = self.blocks();
        match block_table_remove(&mut self.local_storage, hash) {
            None => {
                assert(self.blocks() =~= c);
                None
            },
            Some(mut b) => {
                b.access_at(now);
                let ghost b2 = b;
                proof {
                    lemma_stored_bytes_insert(c, *hash, b2);
                    lemma_stored_bytes_remove(c, *hash);
                }
                block_table_insert(&mut self.local_storage, *hash, b);
                assert(self.blocks() =~= c.insert(*hash, b2));
                block_table_get(&self.local_storage, hash)
            },
        }
    }

    /// The block with hash `hash`, after recording an access now.
    pub fn get_block(&mut self, hash: &[u8; 32]) -> (r: Option<StorageBlock>)
        requires
            old(self).wf(),
            old(self).blocks().contains_key(*hash) ==> old(self).blocks()[*hash].access_count < u64::MAX,
        ensures
            final(self).wf(),
            final(self).capacity() == old(self).capacity(),
            final(self).used() == old(self).used(),
            final(self).deposit_map() == old(self).deposit_map(),
            !old(self).blocks().contains_key(*hash) ==> r is None && final(self).blocks() == old(self).blocks(),
            old(self).blocks().contains_key(*hash) ==> {
                let b = old(self).blocks()[*hash];
                &&& r matches Some(b2)
                &&& b2 == (StorageBlock { last_accessed: b2.last_accessed, access_count: (b.access_count + 1) as u64, ..b })
                &&& final(self).blocks() == old(self).blocks().insert(*hash, b2)
            },
    {
        let now = unix_time_secs();
        self.get_block_at(hash, now)
    }

    /// Deletes the block with hash `hash`, freeing its bytes; whether there
    /// was one.
    pub fn remove_block(&mut self, hash: &[u8; 32]) -> (r: bool)
        requires
            old(self).wf(),
        ensures
            final(self).wf(),
            final(self).capacity() == old(self).capacity(),
            final(self).deposit_map() == old(self).deposit_map(),
            r == old(self).blocks().contains_key(*hash),
            final(self).blocks() == old(self).blocks().remove(*hash),
            r ==> final(self).used() == old(self).used() - old(self).blocks()[*hash].data@.len(),
            !r ==> final(self).used() == old(self).used(),
    {
        let ghost c = self.blocks();
        match block_table_remove(&mut self.local_storage, hash) {
            Some(b) => {
                proof {
                    lemma_stored_bytes_remove(c, *hash);
                }
                self.used_bytes = self.used_bytes - b.data.len() as u64;
                true
            },
            None => {
                assert(self.blocks() =~= c);
                false
            },
        }
    }

    /// A storage proof for block `block_hash` held by `node_id`, stamped
    /// `now` (seconds) and not yet signed; `None` when the block is not held.
    pub fn generate_proof_at(&self, block_hash: &[u8; 32], node_id: &[u8; 32], now: u64) -> (r: Option<StorageProof>)
        ensures
            self.blocks().contains_key(*block_hash) <==> r is Some,
            r matches Some(p) ==> p.block_hash == *block_hash && p.node_id == *node_id
                && p.timestamp == now && p.signature@ == Seq::<u8>::empty(),
    {
        if block_table_contains(&self.local_storage, block_hash) {
            Some(StorageProof {
                block_hash: *block_hash,
                node_id: *node_id,
                timestamp: now,
                signature: Vec::new(),
            })
        } else {
            None
        }
    }

    /// A storage proof stamped now: see `generate_proof_at`.
    pub fn generate_proof(&self, block_hash: &[u8; 32], node_id: &[u8; 32]) -> (r: Option<StorageProof>)
        ensures
            self.blocks().contains_key(*block_hash) <==> r is Some,
            r matches Some(p) ==> p.block_hash == *block_hash && p.node_id == *node_id
                && p.signature@ == Seq::<u8>::empty(),
    {
        let now = unix_time_secs();
        self.generate_proof_at(block_hash, node_id, now)
    }

    /// Hashes of the blocks held by fewer than `min_replicas` nodes, once
    /// each, to be copied again.
    pub fn auto_repair(&self, min_replicas: usize) -> (r: Vec<[u8; 32]>)
        ensures
            forall|i: int| 0 <= i < r@.len() ==> self.blocks().contains_key(#[trigger] r@[i])
                && self.blocks()[r@[i]].stored_by@.len() < min_replicas,
            forall|i: int, j: int| 0 <= i < j < r@.len() ==> #[trigger] r@[i] != #[trigger] r@[j],
            forall|k: [u8; 32]| #[trigger] self.blocks().contains_key(k) && self.blocks()[k].stored_by@.len() < min_replicas
                ==> r@.contains(k),
    {
        let ghost c = self.blocks();
        let replicas = block_table_replicas(&self.local_storage);
        let mut r: Vec<[u8; 32]> = Vec::new();
        let ghost mut from: Seq<int> = Seq::empty();
        let mut i: usize = 0;
        while i < replicas.len()
            invariant
                0 <= i <= replicas@.len(),
                c == self.blocks(),
                forall|q: int|
                    0 <= q < replicas@.len() ==> c.contains_key(#[trigger] replicas@[q].0)
                        && c[replicas@[q].0].stored_by@.len() == replicas@[q].1,
                forall|a: int, b: int| 0 <= a < b < replicas@.len() ==> #[trigger] replicas@[a].0 != #[trigger] replicas@[b].0,
                from.len() == r@.len(),
                forall|a: int| 0 <= a < r@.len() ==> 0 <= #[trigger] from[a] < i && replicas@[from[a]].0 == r@[a],
                forall|a: int, b: int| 0 <= a < b < r@.len() ==> from[a] < from[b],
                forall|a: int| 0 <= a < r@.len() ==> c.contains_key(#[trigger] r@[a]) && c[r@[a]].stored_by@.len() < min_replicas,
                forall|q: int| 0 <= q < i && (#[trigger] replicas@[q]).1 < min_replicas ==> r@.contains(replicas@[q].0),
            decreases replicas@.len() - i,
        {
            let (key, count) = replicas[i];
            if count < min_replicas {
                let ghost before = r@;
                r.push(key);
                proof {
                    from = from.push(i as int);
                    assert(r@[r@.len() - 1] == key);
                    assert forall|q: int| 0 <= q < i + 1 && (#[trigger] replicas@[q]).1 < min_replicas implies r@.contains(replicas@[q].0) by {
                        if q < i {
                            let a = choose|a: int| 0 <= a < before.len() && before[a] == replicas@[q].0;
                            assert(r@[a] == replicas@[q].0);
                        }
                    }
                }
            }
            i = i + 1;
        }
        proof {
            assert forall|a: int, b: int| 0 <= a < b < r@.len() implies #[trigger] r@[a] != #[trigger] r@[b] by {
                assert(replicas@[from[a]].0 != replicas@[from[b]].0);
            }
            assert forall|k: [u8; 32]| #[trigger] c.contains_key(k) && c[k].stored_by@.len() < min_replicas implies r@.contains(k) by {
                let q = choose|q: int| 0 <= q < replicas@.len() && #[trigger] replicas@[q].0 == k;
                assert(replicas@[q].1 < min_replicas);
            }
        }
        r
    }

    /// Block count, bytes used, capacity and number of deposits.
    pub fn stats(&self) -> (r: StorageStats)
        ensures
            r.total_blocks == self.blocks().dom().len(),
            r.used_bytes == self.used(),
            r.max_bytes == self.capacity(),
            r.deposits == self.deposit_map().dom().len(),
    {
        StorageStats {
            total_blocks: block_table_len(&self.local_storage),
            used_bytes: self.used_bytes,
            max_bytes: self.max_storage_bytes,
            deposits: deposit_table_len(&self.deposits),
        }
    }
}

/// A block is cold exactly when more than seven days (604800 s) have passed
/// since its last access; once cold it stays cold as time goes on, and an
/// access makes it warm again for seven days.
pub proof fn lemma_cold_after_a_week(b: StorageBlock, now: u64, later: u64, t: u64)
    ensures
        cold_at(b, now) <==> now > b.last_accessed + 604800,
        cold_at(b, now) && later >= now ==> cold_at(b, later),
        t >= now && t <= now + 604800 ==> !cold_at(StorageBlock { last_accessed: now, ..b }, t),
{
}

/// A block stored into a store is found there under its hash, unchanged;
/// once removed, it is no longer found.
pub proof fn lemma_find_after_store(blocks: Map<[u8; 32], StorageBlock>, block: StorageBlock)
    ensures
        blocks.insert(block.hash, block).contains_key(block.hash),
        blocks.insert(block.hash, block)[block.hash] == block,
        !blocks.insert(block.hash, block).remove(block.hash).contains_key(block.hash),
{
}

/// The bytes accounted as used are exactly the bytes of the stored blocks
/// and never exceed the capacity; so they cover every stored block, and
/// freeing a block can not take the count below zero.
pub proof fn lemma_used_is_stored(e: StorageEngine, k: [u8; 32])
    requires
        e.wf(),
    ensures
        e.used() == stored_bytes(e.blocks()),
        e.used() <= e.capacity(),
        e.blocks().contains_key(k) ==> e.blocks()[k].data@.len() <= e.used(),
{
    if e.blocks().contains_key(k) {
        lemma_stored_bytes_remove(e.blocks(), k);
    }
}

} // verus!
