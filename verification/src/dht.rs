//! Kademlia routing table: XOR distance, LRU eviction, closest-node lookup
//! and the two-thirds consensus check against eclipse attacks.

use vstd::prelude::*;
use crate::concurrent::{
    node_table_contents, node_table_entries, node_table_get, node_table_insert, node_table_len,
    node_table_new, node_table_remove,
};
use crate::net::SocketAddress;
use dashmap::DashMap;

verus! {

/// What is known of a peer node.
#[derive(Debug, Clone)]
pub struct NodeInfo {
    pub node_id: [u8; 32],
    pub addr: SocketAddress,
    pub country: String,
    pub avg_rtt_ms: u32,
    pub reputation: i32,
    /// When the node was last seen, in milliseconds since the Unix epoch.
    pub last_seen: u64,
}

/// Byte-wise XOR of two 32-byte ids.
pub open spec fn xor_bytes(a: Seq<u8>, b: Seq<u8>) -> Seq<u8> {
    Seq::new(32, |i: int| a[i] ^ b[i])
}

/// `a` is below `b` in lexicographic (big-endian) order.
pub open spec fn lex_less(a: Seq<u8>, b: Seq<u8>) -> bool {
    exists|i: int|
        0 <= i < a.len() && i < b.len() && a.subrange(0, i) == b.subrange(0, i) && #[trigger] a[i]
            < b[i]
}

/// The XOR distance of two ids.
pub fn xor_distance(a: &[u8; 32], b: &[u8; 32]) -> (r: [u8; 32])
    ensures
        r@ == xor_bytes(a@, b@),
{
    let mut result = [0u8; 32];
    let mut i: usize = 0;
    while i < 32
        invariant
            0 <= i <= 32,
            forall|j: int| 0 <= j < i ==> result@[j] == a@[j] ^ b@[j],
        decreases 32 - i,
    {
        result[i] = a[i] ^ b[i];
        i = i + 1;
    }
    assert(result@ =~= xor_bytes(a@, b@));
    result
}

/// Whether `a` is below `b` in lexicographic order.
pub fn lex_less_exec(a: &[u8; 32], b: &[u8; 32]) -> (r: bool)
    ensures
        r == lex_less(a@, b@),
{
    let mut i: usize = 0;
    while i < 32
        invariant
            0 <= i <= 32,
            a@.subrange(0, i as int) == b@.subrange(0, i as int),
        decreases 32 - i,
    {
        if a[i] != b[i] {
            if a[i] < b[i] {
                assert(a@[i as int] < b@[i as int]);
                return true;
            } else {
                proof {
                    assert forall|j: int|
                        0 <= j < 32 && a@.subrange(0, j) == b@.subrange(0, j) implies !(a@[j]
                        < b@[j]) by {
                        if j < i {
                            assert(a@[j] == a@.subrange(0, i as int)[j]);
                            assert(b@[j] == b@.subrange(0, i as int)[j]);
                        } else if j > i {
                            assert(a@[i as int] == a@.subrange(0, j)[i as int]);
                            assert(b@[i as int] == b@.subrange(0, j)[i as int]);
                        }
                    }
                }
                return false;
            }
        }
        assert(a@.subrange(0, i + 1) =~= b@.subrange(0, i + 1));
        i = i + 1;
    }
    proof {
        assert forall|j: int|
            0 <= j < 32 && a@.subrange(0, j) == b@.subrange(0, j) implies !(a@[j] < b@[j]) by {
            assert(a@[j] == a@.subrange(0, 32)[j]);
            assert(b@[j] == b@.subrange(0, 32)[j]);
        }
    }
    false
}

/// Lexicographic order is irreflexive.
pub proof fn lemma_lex_irreflexive(a: Seq<u8>)
    ensures
        !lex_less(a, a),
{
}

/// Lexicographic order is transitive.
pub proof fn lemma_lex_transitive(a: Seq<u8>, b: Seq<u8>, c: Seq<u8>)
    requires
        lex_less(a, b),
        lex_less(b, c),
    ensures
        lex_less(a, c),
{
    let i = choose|i: int|
        0 <= i < a.len() && i < b.len() && a.subrange(0, i) == b.subrange(0, i) && #[trigger] a[i]
            < b[i];
    let j = choose|j: int|
        0 <= j < b.len() && j < c.len() && b.subrange(0, j) == c.subrange(0, j) && #[trigger] b[j]
            < c[j];
    if i < j {
        assert(b[i] == b.subrange(0, j)[i]);
        assert(c[i] == c.subrange(0, j)[i]);
        assert(a.subrange(0, i) =~= c.subrange(0, i)) by {
            assert forall|k: int| 0 <= k < i implies a.subrange(0, i)[k] == c.subrange(0, i)[k] by {
                assert(a[k] == a.subrange(0, i)[k]);
                assert(b[k] == b.subrange(0, i)[k]);
                assert(b[k] == b.subrange(0, j)[k]);
                assert(c[k] == c.subrange(0, j)[k]);
            }
        }
        assert(a[i] < c[i]);
    } else if j < i {
        assert(a[j] == a.subrange(0, i)[j]);
        assert(b[j] == b.subrange(0, i)[j]);
        assert(a.subrange(0, j) =~= c.subrange(0, j)) by {
            assert forall|k: int| 0 <= k < j implies a.subrange(0, j)[k] == c.subrange(0, j)[k] by {
                assert(a[k] == a.subrange(0, i)[k]);
                assert(b[k] == b.subrange(0, i)[k]);
                assert(b[k] == b.subrange(0, j)[k]);
                assert(c[k] == c.subrange(0, j)[k]);
            }
        }
        assert(a[j] < c[j]);
    } else {
        assert(a.subrange(0, i) =~= c.subrange(0, i));
        assert(a[i] < c[i]);
    }
}

/// Two different sequences of the same length are ordered one way or the
/// other.
pub proof fn lemma_lex_total(a: Seq<u8>, b: Seq<u8>)
    requires
        a.len() == b.len(),
        a != b,
    ensures
        lex_less(a, b) || lex_less(b, a),
{
    let i = choose|i: int| 0 <= i < a.len() && a[i] != b[i] && forall|k: int| 0 <= k < i ==> a[k] == b[k];
    assert(exists|i: int| 0 <= i < a.len() && a[i] != b[i] && forall|k: int| 0 <= k < i ==> a[k] == b[k]) by {
        lemma_first_difference(a, b, 0);
    }
    assert(a.subrange(0, i) =~= b.subrange(0, i));
    if a[i] < b[i] {
        assert(lex_less(a, b));
    } else {
        assert(lex_less(b, a));
    }
}

proof fn lemma_first_difference(a: Seq<u8>, b: Seq<u8>, from: int)
    requires
        a.len() == b.len(),
        a != b,
        0 <= from <= a.len(),
        forall|k: int| 0 <= k < from ==> a[k] == b[k],
    ensures
        exists|i: int| 0 <= i < a.len() && a[i] != b[i] && forall|k: int| 0 <= k < i ==> a[k] == b[k],
    decreases a.len() - from,
{
    if from == a.len() {
        assert(a =~= b);
    } else if a[from] != b[from] {
    } else {
        lemma_first_difference(a, b, from + 1);
    }
}

} // verus!

verus! {

/// A node id with its distance to a target. Ordered by distance first
/// (closest first), then by id.
#[derive(Debug, Clone, Copy, PartialEq, Eq, PartialOrd, Ord)]
pub struct XorDistance {
    pub distance: [u8; 32],
    pub node_id: [u8; 32],
}

impl XorDistance {
    /// Whether this node is strictly closer to the target than `other`.
    pub fn is_closer_than(&self, other: &XorDistance) -> (r: bool)
        ensures
            r == lex_less(self.distance@, other.distance@),
    {
        lex_less_exec(&self.distance, &other.distance)
    }
}

/// The entry to evict from a full table at time `now`: the one seen longest
/// ago, provided that was before `now`.
pub open spec fn is_lru_victim(c: Map<[u8; 32], NodeInfo>, e: [u8; 32], now: u64) -> bool {
    &&& c.contains_key(e)
    &&& c[e].last_seen < now
    &&& forall|k: [u8; 32]| #[trigger] c.contains_key(k) ==> c[e].last_seen <= c[k].last_seen
}

/// What adding `node` at time `now` makes of the table contents `c` (with
/// room for `capacity` nodes): the node is filed under its id, after evicting
/// the least recently seen node when the table is full and that node was seen
/// before `now`.
pub open spec fn add_outcome(
    c: Map<[u8; 32], NodeInfo>,
    capacity: usize,
    node: NodeInfo,
    now: u64,
    after: Map<[u8; 32], NodeInfo>,
) -> bool {
    if c.dom().len() < capacity || (forall|k: [u8; 32]|
        #[trigger] c.contains_key(k) ==> c[k].last_seen >= now) {
        after == c.insert(node.node_id, node)
    } else {
        exists|e: [u8; 32]|
            #[trigger] is_lru_victim(c, e, now) && after == c.remove(e).insert(node.node_id, node)
    }
}

/// Kademlia routing table.
pub struct KademliaTable {
    self_id: [u8; 32],
    nodes: DashMap<[u8; 32], NodeInfo>,
    max_nodes: usize,
}

impl KademliaTable {
    /// The known nodes by id.
    pub closed spec fn contents(&self) -> Map<[u8; 32], NodeInfo> {
        node_table_contents(self.nodes)
    }

    /// The most nodes the table keeps before evicting.
    pub closed spec fn capacity(&self) -> usize {
        self.max_nodes
    }

    /// This node's own id.
    pub closed spec fn local_id(&self) -> [u8; 32] {
        self.self_id
    }

    /// The table holds up to 1000 nodes, is finite and files every node
    /// under its own id.
    pub open spec fn wf(&self) -> bool {
        &&& self.capacity() == 1000
        &&& self.contents().dom().finite()
        &&& forall|k: [u8; 32]| #[trigger]
            self.contents().contains_key(k) ==> self.contents()[k].node_id == k
    }

    /// An empty table for the node `self_id`, holding at most 1000 nodes.
    pub fn new(self_id: [u8; 32]) -> (r: Self)
        ensures
            r.wf(),
            r.contents() == Map::<[u8; 32], NodeInfo>::empty(),
            r.capacity() == 1000,
            r.local_id() == self_id,
    {
        let nodes = node_table_new();
        assert(node_table_contents(nodes) =~= Map::<[u8; 32], NodeInfo>::empty());
        KademliaTable { self_id, nodes, max_nodes: 1000 }
    }

    /// Adds (or refreshes) `node` at time `now` (milliseconds). When the
    /// table is full, the node seen longest ago is evicted first, provided it
    /// was seen before `now`.
    pub fn add_node_at(&mut self, node: NodeInfo, now: u64)
        requires
            old(self).wf(),
        ensures
            final(self).wf(),
            final(self).capacity() == old(self).capacity(),
            final(self).local_id() == old(self).local_id(),
            add_outcome(
                old(self).contents(),
                old(self).capacity(),
                node,
                now,
                final(self).contents(),
            ),
    {
        let ghost c = self.contents();
        let count = node_table_len(&self.nodes);
        if count >= self.max_nodes {
            let entries = node_table_entries(&self.nodes);
            let mut oldest: Option<[u8; 32]> = None;
            let mut oldest_time: u64 = now;
            let mut i: usize = 0;
            while i < entries.len()
                invariant
                    0 <= i <= entries@.len(),
                    c == node_table_contents(self.nodes),
                    forall|j: int|
                        0 <= j < entries@.len() ==> c.contains_key(#[trigger] entries@[j].0)
                            && c[entries@[j].0] == entries@[j].1,
                    oldest_time <= now,
                    forall|j: int| 0 <= j < i ==> oldest_time <= (#[trigger] entries@[j]).1.last_seen,
                    oldest is None ==> oldest_time == now,
                    oldest matches Some(e) ==> c.contains_key(e) && c[e].last_seen == oldest_time
                        && oldest_time < now,
                decreases entries@.len() - i,
            {
                if entries[i].1.last_seen < oldest_time {
                    oldest_time = entries[i].1.last_seen;
                    oldest = Some(entries[i].0);
                }
                i = i + 1;
            }
            proof {
                assert forall|k: [u8; 32]| #[trigger] c.contains_key(k) implies oldest_time
                    <= c[k].last_seen by {
                    let j = choose|j: int| 0 <= j < entries@.len() && #[trigger] entries@[j].0 == k;
                    assert(oldest_time <= entries@[j].1.last_seen);
                }
            }
            match oldest {
                Some(e) => {
                    node_table_remove(&mut self.nodes, &e);
                    assert(is_lru_victim(c, e, now));
                },
                None => {},
            }
        }
        let id = node.node_id;
        node_table_insert(&mut self.nodes, id, node);
    }

    /// Adds (or refreshes) `node`. When the table is full, the least
    /// recently seen node is evicted first (LRU). The times nodes were seen
    /// are past clock readings, so every one of them lies before the moment
    /// of the addition and eviction is never held back by the clock: this is
    /// `add_node_at` at the latest time there is (only a node recorded as
    /// seen at `u64::MAX` is never evicted).
    pub fn add_node(&mut self, node: NodeInfo)
        requires
            old(self).wf(),
        ensures
            final(self).wf(),
            final(self).capacity() == old(self).capacity(),
            final(self).local_id() == old(self).local_id(),
            add_outcome(old(self).contents(), old(self).capacity(), node, u64::MAX, final(self).contents()),
            exists|now: u64|
                #[trigger] add_outcome(
                    old(self).contents(),
                    old(self).capacity(),
                    node,
                    now,
                    final(self).contents(),
                ),
    {
        self.add_node_at(node, u64::MAX);
        assert(add_outcome(old(self).contents(), old(self).capacity(), node, u64::MAX, self.contents()));
    }

    /// The information on node `node_id`, if known.
    pub fn get_node(&self, node_id: &[u8; 32]) -> (r: Option<NodeInfo>)
        ensures
            match r {
                Some(n) => self.contents().contains_key(*node_id) && n == self.contents()[*node_id],
                None => !self.contents().contains_key(*node_id),
            },
    {
        node_table_get(&self.nodes, node_id)
    }

    /// Forgets node `node_id` (offline or kicked).
    pub fn remove_node(&mut self, node_id: &[u8; 32])
        requires
            old(self).wf(),
        ensures
            final(self).wf(),
            final(self).contents() == old(self).contents().remove(*node_id),
            final(self).capacity() == old(self).capacity(),
            final(self).local_id() == old(self).local_id(),
    {
        node_table_remove(&mut self.nodes, node_id);
    }

    /// The number of known nodes.
    pub fn len(&self) -> (r: usize)
        ensures
            r == self.contents().dom().len(),
    {
        node_table_len(&self.nodes)
    }
}

} // verus!

verus! {

/// The XOR distance from `id` to `target`.
pub open spec fn dist(id: [u8; 32], target: [u8; 32]) -> Seq<u8> {
    xor_bytes(id@, target@)
}

/// The XOR distance is symmetric and is zero exactly from an id to itself.
pub proof fn lemma_xor_metric(a: [u8; 32], b: [u8; 32])
    ensures
        dist(a, b) == dist(b, a),
        dist(a, a) == Seq::new(32, |i: int| 0u8),
        dist(a, b) == Seq::new(32, |i: int| 0u8) ==> a == b,
{
    assert forall|i: int| 0 <= i < 32 implies #[trigger] dist(a, b)[i] == dist(b, a)[i] by {
        let (x, y) = (a@[i], b@[i]);
        assert(x ^ y == y ^ x) by (bit_vector);
    }
    assert(dist(a, b) =~= dist(b, a));
    assert forall|i: int| 0 <= i < 32 implies #[trigger] dist(a, a)[i] == 0u8 by {
        let x = a@[i];
        assert(x ^ x == 0u8) by (bit_vector);
    }
    assert(dist(a, a) =~= Seq::new(32, |i: int| 0u8));
    if dist(a, b) == Seq::new(32, |i: int| 0u8) {
        assert forall|i: int| 0 <= i < 32 implies a@[i] == b@[i] by {
            let (x, y) = (a@[i], b@[i]);
            assert(dist(a, b)[i] == 0u8);
            assert(x ^ y == 0u8 ==> x == y) by (bit_vector);
        }
        assert(a@ =~= b@);
    }
}

/// `r` lists the `k` nodes of `c` closest to `target` (all of them when
/// there are fewer), closest first: every listed node is closer than every
/// node left out.
pub open spec fn closest_nodes(
    c: Map<[u8; 32], NodeInfo>,
    target: [u8; 32],
    k: usize,
    r: Seq<NodeInfo>,
) -> bool {
    &&& r.len() == (if k < c.dom().len() { k as nat } else { c.dom().len() })
    &&& forall|i: int|
        0 <= i < r.len() ==> c.contains_key(#[trigger] r[i].node_id) && c[r[i].node_id] == r[i]
    &&& forall|i: int, j: int|
        0 <= i < j < r.len() ==> lex_less(
            dist(#[trigger] r[i].node_id, target),
            dist(#[trigger] r[j].node_id, target),
        )
    &&& forall|id: [u8; 32], i: int|
        #![trigger c.contains_key(id), r[i]]
        c.contains_key(id) && (forall|m: int| 0 <= m < r.len() ==> r[m].node_id != id) && 0 <= i
            < r.len() ==> lex_less(dist(r[i].node_id, target), dist(id, target))
}

/// Different ids are at different distances from any target.
pub proof fn lemma_xor_injective(a: [u8; 32], b: [u8; 32], t: [u8; 32])
    requires
        dist(a, t) == dist(b, t),
    ensures
        a == b,
{
    assert forall|i: int| 0 <= i < 32 implies a[i] == b[i] by {
        let x = a@[i];
        let y = b@[i];
        let z = t@[i];
        assert(dist(a, t)[i] == dist(b, t)[i]);
        assert(xor_bytes(a@, t@)[i] == a@[i] ^ t@[i]);
        assert(xor_bytes(b@, t@)[i] == b@[i] ^ t@[i]);
        assert(x ^ z == y ^ z);
        assert(x == y) by (bit_vector)
            requires
                x ^ z == y ^ z,
        ;
    }
    assert(a =~= b);
}

/// Best-first list of (distance, node) pairs.
pub open spec fn sorted_by_distance(s: Seq<([u8; 32], NodeInfo)>) -> bool {
    forall|i: int, j: int| 0 <= i < j < s.len() ==> lex_less((#[trigger] s[i]).0@, (#[trigger] s[j]).0@)
}

/// Inserts `item` into the best-first list `best` at its place.
fn insert_by_distance(best: &mut Vec<([u8; 32], NodeInfo)>, item: ([u8; 32], NodeInfo)) -> (p: usize)
    requires
        sorted_by_distance(old(best)@),
        forall|m: int| 0 <= m < old(best)@.len() ==> (#[trigger] old(best)@[m]).0@ != item.0@,
    ensures
        sorted_by_distance(final(best)@),
        p <= old(best)@.len(),
        final(best)@ == old(best)@.insert(p as int, item),
{
    let mut p: usize = 0;
    while p < best.len() && !lex_less_exec(&item.0, &best[p].0)
        invariant
            0 <= p <= best@.len(),
            forall|m: int| 0 <= m < p ==> lex_less((#[trigger] best@[m]).0@, item.0@),
            forall|m: int| 0 <= m < best@.len() ==> (#[trigger] best@[m]).0@ != item.0@,
        decreases best@.len() - p,
    {
        proof {
            lemma_lex_total(best@[p as int].0@, item.0@);
        }
        p = p + 1;
    }
    proof {
        if p < best@.len() {
            assert forall|m: int| p <= m < best@.len() implies lex_less(
                item.0@,
                (#[trigger] best@[m]).0@,
            ) by {
                if m > p {
                    lemma_lex_transitive(item.0@, best@[p as int].0@, best@[m].0@);
                }
            }
        }
    }
    let ghost before = best@;
    best.insert(p, item);
    proof {
        assert forall|i: int, j: int| 0 <= i < j < best@.len() implies lex_less(
            (#[trigger] best@[i]).0@,
            (#[trigger] best@[j]).0@,
        ) by {
            if j < p {
                assert(best@[i] == before[i]);
                assert(best@[j] == before[j]);
            } else if j == p {
                assert(best@[i] == before[i]);
            } else if i < p {
                assert(best@[i] == before[i]);
                assert(best@[j] == before[j - 1]);
            } else if i == p {
                assert(best@[j] == before[j - 1]);
            } else {
                assert(best@[i] == before[i - 1]);
                assert(best@[j] == before[j - 1]);
            }
        }
    }
    p
}

/// Every node of `entries` with its distance to `target`, closest first.
fn sort_by_distance(
    items: Vec<([u8; 32], NodeInfo)>,
    target: &[u8; 32],
    Ghost(c): Ghost<Map<[u8; 32], NodeInfo>>,
) -> (res: (Vec<([u8; 32], NodeInfo)>, Ghost<Seq<int>>))
    requires
        forall|j: int|
            0 <= j < items@.len() ==> c.contains_key(#[trigger] items@[j].0) && c[items@[j].0]
                == items@[j].1 && items@[j].1.node_id == items@[j].0,
        forall|i: int, j: int|
            0 <= i < j < items@.len() ==> #[trigger] items@[i].0 != #[trigger] items@[j].0,
    ensures
        sorted_by_distance(res.0@),
        res.0@.len() == items@.len(),
        forall|m: int|
            0 <= m < res.0@.len() ==> (#[trigger] res.0@[m]).0@ == dist(res.0@[m].1.node_id, *target)
                && c.contains_key(res.0@[m].1.node_id) && c[res.0@[m].1.node_id] == res.0@[m].1,
        res.1@.len() == items@.len(),
        forall|j: int|
            0 <= j < items@.len() ==> 0 <= #[trigger] res.1@[j] < res.0@.len() && res.0@[res.1@[j]].1.node_id
                == items@[j].0,
{
    let ghost orig = items@;
    let ghost total = orig.len();
    let mut entries = items;
    let mut best: Vec<([u8; 32], NodeInfo)> = Vec::new();
    // idx[m]: where best[m] came from; pos[j]: where entry j went.
    let ghost mut idx: Seq<int> = Seq::empty();
    let ghost mut pos: Seq<int> = Seq::new(total, |j: int| 0);
    while entries.len() > 0
        invariant
            entries@ == orig.subrange(0, entries@.len() as int),
            total == orig.len(),
            forall|j: int|
                0 <= j < orig.len() ==> c.contains_key(#[trigger] orig[j].0) && c[orig[j].0]
                    == orig[j].1 && orig[j].1.node_id == orig[j].0,
            forall|i: int, j: int|
                0 <= i < j < orig.len() ==> #[trigger] orig[i].0 != #[trigger] orig[j].0,
            sorted_by_distance(best@),
            best@.len() == orig.len() - entries@.len(),
            idx.len() == best@.len(),
            pos.len() == total,
            forall|m: int|
                0 <= m < best@.len() ==> (#[trigger] best@[m]).0@ == dist(
                    best@[m].1.node_id,
                    *target,
                ) && c.contains_key(best@[m].1.node_id) && c[best@[m].1.node_id] == best@[m].1
                    && entries@.len() <= idx[m] < total && orig[idx[m]].0 == best@[m].1.node_id,
            forall|j: int|
                entries@.len() <= j < total ==> 0 <= #[trigger] pos[j] < best@.len()
                    && best@[pos[j]].1.node_id == orig[j].0,
        decreases entries@.len(),
    {
        let e = entries.pop().unwrap();
        let ghost n = entries@.len() as int;
        assert(e == orig[n]);
        let d = xor_distance(&e.0, target);
        proof {
            assert forall|m: int| 0 <= m < best@.len() implies (#[trigger] best@[m]).0@ != d@ by {
                if best@[m].0@ == d@ {
                    lemma_xor_injective(best@[m].1.node_id, e.0, *target);
                    assert(orig[idx[m]].0 != orig[n].0);
                }
            }
        }
        let ghost before = best@;
        let ghost old_pos = pos;
        let p = insert_by_distance(&mut best, (d, e.1));
        proof {
            idx = idx.insert(p as int, n);
            pos = Seq::new(
                total,
                |j: int|
                    if j == n {
                        p as int
                    } else if old_pos[j] >= p {
                        old_pos[j] + 1
                    } else {
                        old_pos[j]
                    },
            );
            assert forall|m: int| 0 <= m < best@.len() implies (#[trigger] best@[m]).0@ == dist(
                best@[m].1.node_id,
                *target,
            ) && c.contains_key(best@[m].1.node_id) && c[best@[m].1.node_id] == best@[m].1 && n
                <= idx[m] < total && orig[idx[m]].0 == best@[m].1.node_id by {
                if m < p {
                    assert(best@[m] == before[m]);
                } else if m == p {
                } else {
                    assert(best@[m] == before[m - 1]);
                }
            }
            assert forall|j: int| n <= j < total implies 0 <= #[trigger] pos[j] < best@.len()
                && best@[pos[j]].1.node_id == orig[j].0 by {
                if j != n {
                    if old_pos[j] >= p {
                        assert(best@[old_pos[j] + 1] == before[old_pos[j]]);
                    } else {
                        assert(best@[old_pos[j]] == before[old_pos[j]]);
                    }
                }
            }
        }
    }
    (best, Ghost(pos))
}

/// The nodes of the first `keep` pairs, in order.
fn front_nodes(best: Vec<([u8; 32], NodeInfo)>, keep: usize) -> (r: Vec<NodeInfo>)
    requires
        keep <= best@.len(),
    ensures
        r@.len() == keep,
        forall|i: int| 0 <= i < keep ==> r@[i] == best@[i].1,
{
    let ghost bv = best@;
    let mut best = best;
    best.truncate(keep);
    let mut r: Vec<NodeInfo> = Vec::new();
    while best.len() > 0
        invariant
            best@.len() + r@.len() == keep,
            forall|i: int| 0 <= i < best@.len() ==> best@[i] == bv[i],
            forall|i: int| 0 <= i < r@.len() ==> r@[i] == bv[best@.len() + i].1,
        decreases best@.len(),
    {
        let x = best.pop().unwrap();
        r.insert(0, x.1);
    }
    r
}

impl KademliaTable {
    /// The `k` known nodes closest to `target` by XOR distance, closest
    /// first (all nodes when fewer are known).
    pub fn find_closest(&self, target: &[u8; 32], k: usize) -> (r: Vec<NodeInfo>)
        requires
            self.wf(),
        ensures
            closest_nodes(self.contents(), *target, k, r@),
    {
        let ghost c = self.contents();
        let entries = node_table_entries(&self.nodes);
        let ghost orig = entries@;
        proof {
            lemma_count_known(c, orig);
        }
        let (best, Ghost(pos)) = sort_by_distance(entries, target, Ghost(c));
        let ghost bv = best@;
        let keep = if k < best.len() {
            k
        } else {
            best.len()
        };
        let r = front_nodes(best, keep);
        proof {
            assert forall|i: int, j: int| 0 <= i < j < r@.len() implies lex_less(
                dist(#[trigger] r@[i].node_id, *target),
                dist(#[trigger] r@[j].node_id, *target),
            ) by {
                assert(lex_less(bv[i].0@, bv[j].0@));
            }
            assert forall|id: [u8; 32], i: int|
                #![trigger c.contains_key(id), r@[i]]
                c.contains_key(id) && (forall|m: int| 0 <= m < r@.len() ==> r@[m].node_id != id)
                    && 0 <= i < r@.len() implies lex_less(
                dist(r@[i].node_id, *target),
                dist(id, *target),
            ) by {
                let j = choose|j: int| 0 <= j < orig.len() && #[trigger] orig[j].0 == id;
                let m = pos[j];
                if m < keep {
                    assert(r@[m].node_id == id);
                } else {
                    assert(lex_less(bv[i].0@, bv[m].0@));
                }
            }
        }
        r
    }
}

/// A listing of a finite map's keys without repeats is as long as the map.
proof fn lemma_count_known(c: Map<[u8; 32], NodeInfo>, orig: Seq<([u8; 32], NodeInfo)>)
    requires
        forall|j: int| 0 <= j < orig.len() ==> c.contains_key(#[trigger] orig[j].0),
        forall|i: int, j: int| 0 <= i < j < orig.len() ==> #[trigger] orig[i].0 != #[trigger] orig[j].0,
        forall|key: [u8; 32]|
            #[trigger] c.contains_key(key) ==> exists|j: int| 0 <= j < orig.len() && #[trigger] orig[j].0 == key,
    ensures
        orig.len() == c.dom().len(),
{
    let keys = orig.map_values(|e: ([u8; 32], NodeInfo)| e.0);
    assert forall|i: int, j: int| 0 <= i < keys.len() && 0 <= j < keys.len() && i != j implies keys[i] != keys[j] by {
        if i < j {
            assert(orig[i].0 != orig[j].0);
        } else {
            assert(orig[j].0 != orig[i].0);
        }
    }
    assert(keys.no_duplicates());
    assert(keys.to_set() =~= c.dom()) by {
        assert forall|key: [u8; 32]| c.dom().contains(key) implies keys.to_set().contains(key) by {
            let j = choose|j: int| 0 <= j < orig.len() && #[trigger] orig[j].0 == key;
            assert(keys[j] == key);
        }
        assert forall|key: [u8; 32]| keys.to_set().contains(key) implies c.dom().contains(key) by {
            let j = choose|j: int| 0 <= j < keys.len() && keys[j] == key;
            assert(orig[j].0 == key);
        }
    }
    keys.unique_seq_to_set();
}

} // verus!

verus! {

/// Node `id` is listed in view `v`.
pub open spec fn listed_in(v: Seq<NodeInfo>, id: [u8; 32]) -> bool {
    exists|i: int| 0 <= i < v.len() && #[trigger] v[i].node_id == id
}

/// How many of the views list node `id` (a view that lists it twice counts
/// once).
pub open spec fn views_listing(vs: Seq<Seq<NodeInfo>>, id: [u8; 32]) -> nat
    decreases vs.len(),
{
    if vs.len() == 0 {
        0
    } else {
        views_listing(vs.drop_last(), id) + (if listed_in(vs.last(), id) {
            1nat
        } else {
            0nat
        })
    }
}

/// The views as sequences.
pub open spec fn views_of(views: Seq<Vec<NodeInfo>>) -> Seq<Seq<NodeInfo>> {
    views.map_values(|v: Vec<NodeInfo>| v@)
}

/// Node `id` is known locally and listed by at least two thirds of the
/// views.
pub open spec fn in_consensus(c: Map<[u8; 32], NodeInfo>, vs: Seq<Seq<NodeInfo>>, id: [u8; 32]) -> bool {
    &&& c.contains_key(id)
    &&& 3 * views_listing(vs, id) >= 2 * vs.len()
}

/// `l` lists, once each, the local information of exactly the nodes in
/// consensus.
pub open spec fn lists_consensus(
    c: Map<[u8; 32], NodeInfo>,
    vs: Seq<Seq<NodeInfo>>,
    l: Seq<NodeInfo>,
) -> bool {
    &&& forall|i: int|
        0 <= i < l.len() ==> in_consensus(c, vs, #[trigger] l[i].node_id) && l[i] == c[l[i].node_id]
    &&& forall|i: int, j: int| 0 <= i < j < l.len() ==> #[trigger] l[i].node_id != #[trigger] l[j].node_id
    &&& forall|id: [u8; 32]|
        #[trigger] in_consensus(c, vs, id) ==> exists|i: int| 0 <= i < l.len() && #[trigger] l[i].node_id == id
}

/// Any two lists of the nodes in consensus have the same length.
pub proof fn lemma_consensus_lists_same_len(
    c: Map<[u8; 32], NodeInfo>,
    vs: Seq<Seq<NodeInfo>>,
    l1: Seq<NodeInfo>,
    l2: Seq<NodeInfo>,
)
    requires
        lists_consensus(c, vs, l1),
        lists_consensus(c, vs, l2),
    ensures
        l1.len() == l2.len(),
{
    let ids1 = l1.map_values(|n: NodeInfo| n.node_id);
    let ids2 = l2.map_values(|n: NodeInfo| n.node_id);
    assert forall|i: int, j: int| 0 <= i < ids1.len() && 0 <= j < ids1.len() && i != j implies ids1[i] != ids1[j] by {
        if i < j {
            assert(l1[i].node_id != l1[j].node_id);
        } else {
            assert(l1[j].node_id != l1[i].node_id);
        }
    }
    assert forall|i: int, j: int| 0 <= i < ids2.len() && 0 <= j < ids2.len() && i != j implies ids2[i] != ids2[j] by {
        if i < j {
            assert(l2[i].node_id != l2[j].node_id);
        } else {
            assert(l2[j].node_id != l2[i].node_id);
        }
    }
    assert(ids1.to_set() =~= ids2.to_set()) by {
        assert forall|id: [u8; 32]| ids1.to_set().contains(id) implies ids2.to_set().contains(id) by {
            let i = choose|i: int| 0 <= i < ids1.len() && ids1[i] == id;
            assert(in_consensus(c, vs, l1[i].node_id));
            let j = choose|j: int| 0 <= j < l2.len() && #[trigger] l2[j].node_id == id;
            assert(ids2[j] == id);
        }
        assert forall|id: [u8; 32]| ids2.to_set().contains(id) implies ids1.to_set().contains(id) by {
            let i = choose|i: int| 0 <= i < ids2.len() && ids2[i] == id;
            assert(in_consensus(c, vs, l2[i].node_id));
            let j = choose|j: int| 0 <= j < l1.len() && #[trigger] l1[j].node_id == id;
            assert(ids1[j] == id);
        }
    }
    ids1.unique_seq_to_set();
    ids2.unique_seq_to_set();
}

proof fn lemma_views_listing_bound(vs: Seq<Seq<NodeInfo>>, id: [u8; 32])
    ensures
        views_listing(vs, id) <= vs.len(),
    decreases vs.len(),
{
    if vs.len() > 0 {
        lemma_views_listing_bound(vs.drop_last(), id);
    }
}

proof fn lemma_listed_in_step(row: Seq<NodeInfo>, j: int, x: [u8; 32])
    requires
        0 <= j < row.len(),
    ensures
        listed_in(row.subrange(0, j + 1), x) == (listed_in(row.subrange(0, j), x) || row[j].node_id == x),
{
    let a = row.subrange(0, j);
    let b = row.subrange(0, j + 1);
    if listed_in(a, x) {
        let i = choose|i: int| 0 <= i < a.len() && #[trigger] a[i].node_id == x;
        assert(b[i] == a[i]);
    }
    if row[j].node_id == x {
        assert(b[j] == row[j]);
    }
    if listed_in(b, x) {
        let i = choose|i: int| 0 <= i < b.len() && #[trigger] b[i].node_id == x;
        if i < j {
            assert(a[i] == b[i]);
        }
    }
}

/// Whether two node ids are equal.
pub fn ids_equal(a: &[u8; 32], b: &[u8; 32]) -> (r: bool)
    ensures
        r == (*a == *b),
{
    let mut i: usize = 0;
    while i < 32
        invariant
            0 <= i <= 32,
            forall|j: int| 0 <= j < i ==> a@[j] == b@[j],
        decreases 32 - i,
    {
        if a[i] != b[i] {
            return false;
        }
        i = i + 1;
    }
    assert(a@ =~= b@);
    assert(*a == *b);
    true
}

/// Node `id` has an entry in the tally `s`.
pub open spec fn listed(s: Seq<([u8; 32], usize)>, id: [u8; 32]) -> bool {
    exists|m: int| 0 <= m < s.len() && #[trigger] s[m].0 == id
}

/// Tallies how many views list each node id, in order of first
/// appearance.
fn tally(views: &Vec<Vec<NodeInfo>>) -> (counts: Vec<([u8; 32], usize)>)
    ensures
        forall|i: int, j: int| 0 <= i < j < counts@.len() ==> #[trigger] counts@[i].0 != #[trigger] counts@[j].0,
        forall|m: int| 0 <= m < counts@.len() ==> (#[trigger] counts@[m]).1 == views_listing(views_of(views@), counts@[m].0),
        forall|id: [u8; 32]|
            #![trigger views_listing(views_of(views@), id)]
            !listed(counts@, id) ==> views_listing(views_of(views@), id) == 0,
{
    let ghost vs = views_of(views@);
    let nviews = views.len();
    let mut counts: Vec<([u8; 32], usize)> = Vec::new();
    let mut i: usize = 0;
    while i < views.len()
        invariant
            vs == views_of(views@),
            nviews == views@.len(),
            0 <= i <= views@.len(),
            forall|a: int, b: int| 0 <= a < b < counts@.len() ==> #[trigger] counts@[a].0 != #[trigger] counts@[b].0,
            forall|m: int| 0 <= m < counts@.len() ==> (#[trigger] counts@[m]).1 == views_listing(vs.subrange(0, i as int), counts@[m].0),
            forall|id: [u8; 32]|
                #![trigger views_listing(vs.subrange(0, i as int), id)]
                !listed(counts@, id) ==> views_listing(vs.subrange(0, i as int), id) == 0,
        decreases views@.len() - i,
    {
        let row = &views[i];
        let ghost done = vs.subrange(0, i as int);
        proof {
            assert(vs[i as int] == row@);
            assert(done.len() == i);
        }
        let mut j: usize = 0;
        while j < row.len()
            invariant
                vs == views_of(views@),
                nviews == views@.len(),
                0 <= i < views@.len(),
                row@ == vs[i as int],
                done == vs.subrange(0, i as int),
                done.len() == i,
                0 <= j <= row@.len(),
                forall|a: int, b: int| 0 <= a < b < counts@.len() ==> #[trigger] counts@[a].0 != #[trigger] counts@[b].0,
                forall|m: int| 0 <= m < counts@.len() ==> (#[trigger] counts@[m]).1 == views_listing(done, counts@[m].0) + (
                    if listed_in(row@.subrange(0, j as int), counts@[m].0) { 1nat } else { 0nat }),
                forall|x: [u8; 32]| #![trigger views_listing(done, x)] !listed(counts@, x) ==> views_listing(done, x) == 0,
                forall|x: [u8; 32]|
                    #![trigger listed_in(row@.subrange(0, j as int), x)]
                    !listed(counts@, x) ==> !listed_in(row@.subrange(0, j as int), x),
            decreases row@.len() - j,
        {
            let id = row[j].node_id;
            let mut k: usize = 0;
            let mut seen = false;
            while k < j && !seen
                invariant
                    0 <= k <= j < row@.len(),
                    seen ==> k < j && row@[k as int].node_id == id,
                    !seen ==> forall|q: int| 0 <= q < k ==> (#[trigger] row@[q]).node_id != id,
                decreases j - k + (if seen { 0int } else { 1int }),
            {
                if ids_equal(&row[k].node_id, &id) {
                    seen = true;
                } else {
                    k = k + 1;
                }
            }
            proof {
                if seen {
                    assert(row@.subrange(0, j as int)[k as int].node_id == id);
                } else {
                    assert forall|q: int| 0 <= q < j implies (#[trigger] row@.subrange(0, j as int)[q]).node_id != id by {
                        assert(row@.subrange(0, j as int)[q] == row@[q]);
                    }
                }
            }
            let ghost before = counts@;
            let ghost jo = j as int;
            let ghost mut pos: int = 0;
            if !seen {
                let mut m: usize = 0;
                let mut found = false;
                while m < counts.len() && !found
                    invariant
                        0 <= m <= counts@.len(),
                        found ==> m < counts@.len() && counts@[m as int].0 == id,
                        !found ==> forall|q: int| 0 <= q < m ==> (#[trigger] counts@[q]).0 != id,
                    decreases counts@.len() - m + (if found { 0int } else { 1int }),
                {
                    if ids_equal(&counts[m].0, &id) {
                        found = true;
                    } else {
                        m = m + 1;
                    }
                }
                proof {
                    assert(!listed_in(row@.subrange(0, j as int), id));
                }
                if found {
                    proof {
                        lemma_views_listing_bound(done, id);
                        assert(counts@[m as int].1 == views_listing(done, id));
                        assert(counts@[m as int].1 <= i);
                        pos = m as int;
                    }
                    let n = counts[m].1 + 1;
                    counts.set(m, (id, n));
                    proof {
                        assert forall|a: int, b: int| 0 <= a < b < counts@.len() implies #[trigger] counts@[a].0 != #[trigger] counts@[b].0 by {
                            assert(before[a].0 != before[b].0);
                        }
                    }
                } else {
                    proof {
                        assert(!listed(before, id));
                        pos = before.len() as int;
                    }
                    counts.push((id, 1));
                }
                proof {
                    assert(0 <= pos < counts@.len() && counts@[pos].0 == id);
                    assert(counts@[pos].1 == views_listing(done, id) + 1);
                    assert(forall|q: int| 0 <= q < before.len() && q != pos ==> counts@[q] == before[q] && before[q].0 != id);
                    assert(counts@.len() == before.len() || (counts@.len() == before.len() + 1 && pos == before.len()));
                }
            } else {
                proof {
                    assert(row@.subrange(0, j as int)[k as int].node_id == id);
                    assert(listed_in(row@.subrange(0, j as int), id));
                }
            }
            j = j + 1;
            proof {
                assert forall|q: int| 0 <= q < counts@.len() implies (#[trigger] counts@[q]).1 == views_listing(done, counts@[q].0) + (
                    if listed_in(row@.subrange(0, j as int), counts@[q].0) { 1nat } else { 0nat }) by {
                    lemma_listed_in_step(row@, jo, counts@[q].0);
                    if !seen && q == pos {
                    } else {
                        assert(counts@[q] == before[q]);
                    }
                }
                assert forall|x: [u8; 32]|
                    #![trigger listed(counts@, x)]
                    !listed(counts@, x) implies views_listing(done, x) == 0 && !listed_in(row@.subrange(0, j as int), x) by {
                    lemma_listed_in_step(row@, jo, x);
                    assert(!listed(before, x) ==> views_listing(done, x) == 0);
                    assert(!listed(before, x) ==> !listed_in(row@.subrange(0, jo), x));
                    if x == id {
                        if seen {
                            assert(listed(before, id));
                            let q = choose|q: int| 0 <= q < before.len() && #[trigger] before[q].0 == id;
                            assert(counts@[q].0 == id);
                        } else {
                            assert(counts@[pos].0 == id);
                        }
                    } else if listed(before, x) {
                        let q = choose|q: int| 0 <= q < before.len() && #[trigger] before[q].0 == x;
                        if !seen {
                            assert(q != pos);
                        }
                        assert(counts@[q].0 == x);
                    }
                }
            }
        }
        proof {
            assert(row@.subrange(0, j as int) =~= row@);
            assert(vs.subrange(0, i + 1).drop_last() =~= done);
            assert(vs.subrange(0, i + 1).last() == row@);
            assert forall|x: [u8; 32]| !listed(counts@, x) implies #[trigger] views_listing(vs.subrange(0, i + 1), x) == 0 by {
                assert(!listed_in(row@.subrange(0, j as int), x));
                assert(views_listing(done, x) == 0);
                assert(vs.subrange(0, i + 1).drop_last() == done);
            }
        }
        i = i + 1;
    }
    proof {
        assert(vs.subrange(0, i as int) =~= vs);
    }
    counts
}

impl KademliaTable {
    /// The local information of the tallied nodes listed by at least two
    /// thirds of the `view_count` views, in tally order; `rpos[q]` is where tally entry `q`
    /// went when it qualified.
    fn select_listed(
        &self,
        counts: &Vec<([u8; 32], usize)>,
        view_count: usize,
        Ghost(vs): Ghost<Seq<Seq<NodeInfo>>>,
    ) -> (res: (Vec<NodeInfo>, Ghost<Seq<int>>))
        requires
            self.wf(),
            view_count == vs.len(),
            forall|a: int, b: int| 0 <= a < b < counts@.len() ==> #[trigger] counts@[a].0 != #[trigger] counts@[b].0,
            forall|q: int| 0 <= q < counts@.len() ==> (#[trigger] counts@[q]).1 == views_listing(vs, counts@[q].0),
        ensures
            forall|i: int| 0 <= i < res.0@.len() ==> in_consensus(self.contents(), vs, #[trigger] res.0@[i].node_id) && res.0@[i] == self.contents()[res.0@[i].node_id],
            forall|i: int, j: int| 0 <= i < j < res.0@.len() ==> #[trigger] res.0@[i].node_id != #[trigger] res.0@[j].node_id,
            res.1@.len() == counts@.len(),
            forall|q: int| 0 <= q < counts@.len() && #[trigger] in_consensus(self.contents(), vs, counts@[q].0) ==> 0 <= res.1@[q] < res.0@.len() && res.0@[res.1@[q]].node_id == counts@[q].0,
    {
        let ghost c = self.contents();
        let mut result: Vec<NodeInfo> = Vec::new();
        let ghost mut rpos: Seq<int> = Seq::new(counts@.len(), |m: int| 0);
        let ghost mut rq: Seq<int> = Seq::empty();
        let mut m: usize = 0;
        while m < counts.len()
            invariant
                c == self.contents(),
                self.wf(),
                view_count == vs.len(),
                0 <= m <= counts@.len(),
                rpos.len() == counts@.len(),
                forall|a: int, b: int| 0 <= a < b < counts@.len() ==> #[trigger] counts@[a].0 != #[trigger] counts@[b].0,
                forall|q: int| 0 <= q < counts@.len() ==> (#[trigger] counts@[q]).1 == views_listing(vs, counts@[q].0),
                rq.len() == result@.len(),
                forall|i: int| 0 <= i < result@.len() ==> in_consensus(c, vs, #[trigger] result@[i].node_id) && result@[i] == c[result@[i].node_id],
                forall|i: int| 0 <= i < result@.len() ==> 0 <= #[trigger] rq[i] < m && counts@[rq[i]].0 == result@[i].node_id,
                forall|i: int, j: int| 0 <= i < j < result@.len() ==> #[trigger] result@[i].node_id != #[trigger] result@[j].node_id,
                forall|q: int| 0 <= q < m && #[trigger] in_consensus(c, vs, counts@[q].0) ==> 0 <= rpos[q] < result@.len() && result@[rpos[q]].node_id == counts@[q].0,
            decreases counts@.len() - m,
        {
            if (counts[m].1 as u128) * 3 >= (view_count as u128) * 2 {
                match self.get_node(&counts[m].0) {
                    Some(n) => {
                        let ghost before = result@;
                        let ghost before_rq = rq;
                        proof {
                            assert(n.node_id == counts@[m as int].0);
                            assert forall|i: int| 0 <= i < before.len() implies before[i].node_id != n.node_id by {
                                let q = rq[i];
                                assert(q < m);
                                assert(counts@[q].0 != counts@[m as int].0);
                            }
                            rpos = rpos.update(m as int, before.len() as int);
                            rq = rq.push(m as int);
                        }
                        result.push(n);
                        proof {
                            assert forall|i: int| 0 <= i < result@.len() implies 0 <= #[trigger] rq[i] < m + 1 && counts@[rq[i]].0 == result@[i].node_id by {
                                if i < before.len() {
                                    assert(rq[i] == before_rq[i]);
                                    assert(result@[i] == before[i]);
                                }
                            }
                        }
                    },
                    None => {},
                }
            }
            m = m + 1;
        }
        (result, Ghost(rpos))
    }

    /// Cross-checks at least three independent views of the network (two
    /// thirds consensus against eclipse attacks): the locally known nodes
    /// listed by at least two thirds of the `n` views (`3k >= 2n` for a node
    /// in `k` views), once each, when there are at least three of them;
    /// `None` with fewer than three views or fewer than three such nodes.
    pub fn verify_consensus(&self, views: Vec<Vec<NodeInfo>>) -> (r: Option<Vec<NodeInfo>>)
        requires
            self.wf(),
        ensures
            views@.len() < 3 ==> r is None,
            r matches Some(l) ==> lists_consensus(self.contents(), views_of(views@), l@) && l@.len() >= 3,
            r is None && views@.len() >= 3 ==> forall|l: Seq<NodeInfo>|
                #[trigger] lists_consensus(self.contents(), views_of(views@), l) ==> l.len() < 3,
    {
        let ghost c = self.contents();
        let ghost vs = views_of(views@);
        let view_count = views.len();
        if view_count < 3 {
            return None;
        }
        let counts = tally(&views);
        let (result, Ghost(rpos)) = self.select_listed(&counts, view_count, Ghost(vs));
        proof {
            assert(lists_consensus(c, vs, result@)) by {
                assert forall|id: [u8; 32]| #[trigger] in_consensus(c, vs, id) implies exists|i: int| 0 <= i < result@.len() && #[trigger] result@[i].node_id == id by {
                    if !listed(counts@, id) {
                        assert(views_listing(vs, id) == 0);
                    } else {
                        let q = choose|q: int| 0 <= q < counts@.len() && (#[trigger] counts@[q]).0 == id;
                        assert(result@[rpos[q]].node_id == id);
                    }
                }
            }
        }
        if result.len() >= 3 {
            Some(result)
        } else {
            proof {
                assert forall|l: Seq<NodeInfo>| #[trigger] lists_consensus(c, vs, l) implies l.len() < 3 by {
                    lemma_consensus_lists_same_len(c, vs, l, result@);
                }
            }
            None
        }
    }
}

} // verus!

verus! {

/// Adding a node to a full table evicts the least recently seen node: the
/// table does not grow, the evicted node was seen no later than any other,
/// and every other node stays (for any addition time later than that
/// node's last sighting; `add_node` adds at the latest time there is).
pub proof fn lemma_full_table_evicts_lru(
    c: Map<[u8; 32], NodeInfo>,
    capacity: usize,
    node: NodeInfo,
    now: u64,
    after: Map<[u8; 32], NodeInfo>,
)
    requires
        c.dom().finite(),
        c.dom().len() >= capacity,
        exists|k: [u8; 32]| #[trigger] c.contains_key(k) && c[k].last_seen < now,
        add_outcome(c, capacity, node, now, after),
    ensures
        after.dom().len() <= c.dom().len(),
        after.contains_key(node.node_id) && after[node.node_id] == node,
        exists|e: [u8; 32]|
            #[trigger] c.contains_key(e) && (forall|k: [u8; 32]| #[trigger] c.contains_key(k) ==> c[e].last_seen <= c[k].last_seen)
                && (e != node.node_id ==> !after.contains_key(e))
                && (forall|k: [u8; 32]| #[trigger] c.contains_key(k) && k != e && k != node.node_id ==> after.contains_key(k) && after[k] == c[k]),
{
    let k0 = choose|k: [u8; 32]| #[trigger] c.contains_key(k) && c[k].last_seen < now;
    assert(!(c[k0].last_seen >= now));
    let e = choose|e: [u8; 32]|
        #[trigger] is_lru_victim(c, e, now) && after == c.remove(e).insert(node.node_id, node);
    assert(c.remove(e).dom() =~= c.dom().remove(e));
    assert(after.dom() =~= c.dom().remove(e).insert(node.node_id));
    assert(c.contains_key(e));
}

/// A table within its capacity stays within it when a node is added, as
/// long as it had room or some node was last seen before the time of the
/// addition (so that one can be evicted).
pub proof fn lemma_add_keeps_capacity(
    c: Map<[u8; 32], NodeInfo>,
    capacity: usize,
    node: NodeInfo,
    now: u64,
    after: Map<[u8; 32], NodeInfo>,
)
    requires
        c.dom().finite(),
        c.dom().len() <= capacity,
        c.dom().len() < capacity || exists|k: [u8; 32]| #[trigger] c.contains_key(k) && c[k].last_seen < now,
        add_outcome(c, capacity, node, now, after),
    ensures
        after.dom().len() <= capacity,
{
    if c.dom().len() < capacity {
        assert(after.dom() =~= c.dom().insert(node.node_id));
    } else {
        let k = choose|k: [u8; 32]| #[trigger] c.contains_key(k) && c[k].last_seen < now;
        assert(!(c[k].last_seen >= now));
        let e = choose|e: [u8; 32]|
            #[trigger] is_lru_victim(c, e, now) && after == c.remove(e).insert(node.node_id, node);
        assert(c.remove(e).dom() =~= c.dom().remove(e));
        assert(after.dom() =~= c.dom().remove(e).insert(node.node_id));
    }
}

} // verus!
