//! Rotation of camouflage source addresses (CIP) and decoy traffic.

use vstd::prelude::*;
use crate::entropy::{random_bytes, random_range, random_ratio};
use crate::net::IpAddress;
use std::collections::VecDeque;

verus! {

/// 127.0.0.2 as a `u32`.
pub const V4_POOL_FIRST: u32 = 0x7F00_0002;

/// 2001:db8:: as a `u128`.
pub const V6_POOL_BASE: u128 = 0x2001_0db8_0000_0000_0000_0000_0000_0000;

/// How many recently used addresses are remembered.
pub const COOLDOWN_CAPACITY: usize = 100;

/// The IPv4 pool: 127.0.0.2 to 127.0.0.20.
pub open spec fn v4_pool() -> Seq<u32> {
    Seq::new(19, |i: int| (V4_POOL_FIRST + i) as u32)
}

/// The IPv6 pool: 2001:db8::0 to 2001:db8::63.
pub open spec fn v6_pool() -> Seq<u128> {
    Seq::new(100, |i: int| (V6_POOL_BASE + i) as u128)
}

/// `ip` is one of the IPv6 pool addresses.
pub open spec fn is_shadow_ip(ip: IpAddress) -> bool {
    exists|i: int| 0 <= i < 100 && ip == IpAddress::V6(#[trigger] v6_pool()[i])
}

/// The cooldown list after `ip` is used: appended, and the oldest entry
/// dropped beyond 100.
pub open spec fn remembered(cooldown: Seq<IpAddress>, ip: IpAddress) -> Seq<IpAddress> {
    let c = cooldown.push(ip);
    if c.len() > 100 {
        c.subrange(1, c.len() as int)
    } else {
        c
    }
}

/// The IPv4 rotation never hands out the same address twice in a row: the
/// address after position `i` differs from the one at `i`.
pub proof fn lemma_rotation_moves_on(i: int)
    requires
        0 <= i < 19,
    ensures
        v4_pool()[(i + 1) % 19] != v4_pool()[i],
{
    if i == 18 {
        assert((i + 1) % 19 == 0);
    } else {
        assert((i + 1) % 19 == i + 1);
    }
}

/// An address just handed out is in cooldown, and the cooldown list never
/// holds more than 100 addresses.
pub proof fn lemma_used_address_cools_down(cooldown: Seq<IpAddress>, ip: IpAddress)
    requires
        cooldown.len() <= 100,
    ensures
        remembered(cooldown, ip).contains(ip),
        remembered(cooldown, ip).len() <= 100,
{
    let c = cooldown.push(ip);
    assert(c[c.len() - 1] == ip);
    if c.len() > 100 {
        let r = c.subrange(1, c.len() as int);
        assert(r[r.len() - 1] == ip);
    }
}

/// The IPv4 addresses among `s`, in order.
pub open spec fn v4_entries(s: Seq<IpAddress>) -> Seq<u32>
    decreases s.len(),
{
    if s.len() == 0 {
        Seq::empty()
    } else {
        let rest = v4_entries(s.drop_last());
        match s.last() {
            IpAddress::V4(x) => rest.push(x),
            IpAddress::V6(_) => rest,
        }
    }
}

/// The `m` IPv4 pool entries of the rotation ending at position `rot`,
/// oldest first.
pub open spec fn v4_run(rot: int, m: int) -> Seq<u32> {
    Seq::new(m as nat, |k: int| v4_pool()[(rot + 20 - m + k) % 19])
}

/// The IPv4 addresses cooling down are, oldest first, the run of rotation
/// entries ending at position `rot`.
pub open spec fn run_ending_at(rot: int, cooldown: Seq<IpAddress>) -> bool {
    &&& v4_entries(cooldown).len() <= 19
    &&& v4_entries(cooldown) == v4_run(rot, v4_entries(cooldown).len() as int)
}

proof fn lemma_v4_entries_push(s: Seq<IpAddress>, ip: IpAddress)
    ensures
        v4_entries(s.push(ip)) == (match ip {
            IpAddress::V4(x) => v4_entries(s).push(x),
            IpAddress::V6(_) => v4_entries(s),
        }),
{
    assert(s.push(ip).drop_last() =~= s);
}

proof fn lemma_v4_entries_contains(s: Seq<IpAddress>, x: u32)
    ensures
        s.contains(IpAddress::V4(x)) <==> v4_entries(s).contains(x),
    decreases s.len(),
{
    if s.len() > 0 {
        let t = s.drop_last();
        lemma_v4_entries_contains(t, x);
        let et = v4_entries(t);
        let es = v4_entries(s);
        assert(es.len() >= et.len());
        assert(forall|j: int| 0 <= j < et.len() ==> es[j] == et[j]);
        if s.contains(IpAddress::V4(x)) {
            let i = choose|i: int| 0 <= i < s.len() && s[i] == IpAddress::V4(x);
            if i < s.len() - 1 {
                assert(t[i] == s[i]);
                assert(t.contains(IpAddress::V4(x)));
                let j = choose|j: int| 0 <= j < et.len() && et[j] == x;
                assert(es[j] == x);
            } else {
                assert(es[es.len() - 1] == x);
            }
        }
        if es.contains(x) {
            let j = choose|j: int| 0 <= j < es.len() && es[j] == x;
            if j < et.len() {
                assert(et[j] == x);
                let i = choose|i: int| 0 <= i < t.len() && t[i] == IpAddress::V4(x);
                assert(s[i] == t[i]);
            } else {
                match s.last() {
                    IpAddress::V4(y) => {
                        assert(es == et.push(y));
                        assert(y == x);
                    },
                    IpAddress::V6(_) => {
                        assert(es == et);
                    },
                }
                assert(s[s.len() - 1] == IpAddress::V4(x));
            }
        }
    }
}

proof fn lemma_v4_entries_drop_first(s: Seq<IpAddress>)
    requires
        s.len() > 0,
    ensures
        s[0] is V4 ==> v4_entries(s).len() > 0 && v4_entries(s.subrange(1, s.len() as int))
            == v4_entries(s).subrange(1, v4_entries(s).len() as int),
        s[0] is V6 ==> v4_entries(s.subrange(1, s.len() as int)) == v4_entries(s),
    decreases s.len(),
{
    let rest = s.subrange(1, s.len() as int);
    if s.len() == 1 {
        assert(rest =~= Seq::<IpAddress>::empty());
        assert(s.drop_last() =~= Seq::<IpAddress>::empty());
        assert(v4_entries(s.drop_last()) =~= Seq::<u32>::empty());
    } else {
        let t = s.drop_last();
        lemma_v4_entries_drop_first(t);
        assert(t[0] == s[0]);
        assert(rest.drop_last() =~= t.subrange(1, t.len() as int));
        assert(rest.last() == s.last());
        if s[0] is V4 {
            assert(v4_entries(rest) =~= v4_entries(s).subrange(1, v4_entries(s).len() as int));
        }
    }
}

proof fn lemma_v4_pool_distinct(i: int, j: int)
    requires
        0 <= i < 19,
        0 <= j < 19,
        i != j,
    ensures
        v4_pool()[i] != v4_pool()[j],
{
}

/// Below 19 entries, the run ending at `rot` leaves out the next entry.
proof fn lemma_run_leaves_out_successor(rot: int, m: int)
    requires
        0 <= rot < 19,
        0 <= m < 19,
    ensures
        !v4_run(rot, m).contains(v4_pool()[(rot + 1) % 19]),
{
    let succ = (rot + 1) % 19;
    assert forall|k: int| 0 <= k < m implies v4_run(rot, m)[k] != v4_pool()[succ] by {
        let a = rot + 20 - m + k;
        if a < 19 {
            assert(a % 19 == a);
        } else {
            assert(a % 19 == a - 19);
        }
        if rot < 18 {
            assert(succ == rot + 1);
        } else {
            assert(succ == 0);
        }
        lemma_v4_pool_distinct(a % 19, succ);
    }
}

/// The full run of 19 entries holds every pool entry.
proof fn lemma_full_run_covers_pool(rot: int, i: int)
    requires
        0 <= rot < 19,
        0 <= i < 19,
    ensures
        v4_run(rot, 19).contains(v4_pool()[i]),
{
    let k = if i > rot { i - rot - 1 } else { i + 18 - rot };
    assert((rot + 1 + k) % 19 == i);
    assert(v4_run(rot, 19)[k] == v4_pool()[i]);
}

/// Taking the next rotation entry extends the run by it.
proof fn lemma_run_extends(rot: int, m: int)
    requires
        0 <= rot < 19,
        0 <= m < 19,
    ensures
        v4_run(rot, m).push(v4_pool()[(rot + 1) % 19]) == v4_run((rot + 1) % 19, m + 1),
{
    let succ = (rot + 1) % 19;
    assert forall|k: int| 0 <= k < m implies v4_run(rot, m)[k] == #[trigger] v4_run(succ, m + 1)[k] by {
        if rot < 18 {
            assert(succ == rot + 1);
        } else {
            assert(succ == 0);
            assert((rot + 20 - m + k) % 19 == (succ + 20 - (m + 1) + k) % 19);
        }
    }
    assert(v4_run(succ, m + 1)[m] == v4_pool()[succ]) by {
        assert((succ + 20 - (m + 1) + m) % 19 == succ);
    }
    assert(v4_run(rot, m).push(v4_pool()[succ]) =~= v4_run(succ, m + 1));
}

/// Dropping the oldest entry of a run leaves the run one shorter.
proof fn lemma_run_drops_oldest(rot: int, m: int)
    requires
        1 <= m,
    ensures
        v4_run(rot, m).subrange(1, m) == v4_run(rot, m - 1),
{
    assert(v4_run(rot, m).subrange(1, m) =~= v4_run(rot, m - 1));
}

/// The 119 pool addresses can not all be cooling down at once, since at most
/// 100 addresses are: some IPv4 or some IPv6 pool address is free.
proof fn lemma_some_pool_address_free(recent: Seq<IpAddress>)
    requires
        recent.len() <= 100,
    ensures
        (exists|i: int| 0 <= i < 19 && !recent.contains(IpAddress::V4(#[trigger] v4_pool()[i]))) || (
        exists|i: int| 0 <= i < 100 && !recent.contains(IpAddress::V6(#[trigger] v6_pool()[i]))),
{
    if (forall|i: int| 0 <= i < 19 ==> recent.contains(IpAddress::V4(#[trigger] v4_pool()[i])))
        && (forall|i: int| 0 <= i < 100 ==> recent.contains(IpAddress::V6(#[trigger] v6_pool()[i]))) {
        lemma_all_cooling_impossible(recent);
    }
}

proof fn lemma_all_cooling_impossible(recent: Seq<IpAddress>)
    requires
        recent.len() <= 100,
        forall|i: int| 0 <= i < 19 ==> recent.contains(IpAddress::V4(#[trigger] v4_pool()[i])),
        forall|i: int| 0 <= i < 100 ==> recent.contains(IpAddress::V6(#[trigger] v6_pool()[i])),
    ensures
        recent.len() > 100,
{
    broadcast use vstd::seq_lib::seq_to_set_is_finite;

    let all = Seq::new(
        119,
        |i: int|
            if i < 19 {
                IpAddress::V4(v4_pool()[i])
            } else {
                IpAddress::V6(v6_pool()[i - 19])
            },
    );
    assert forall|i: int, j: int| 0 <= i < all.len() && 0 <= j < all.len() && i != j implies all[i] != all[j] by {
        if i < 19 && j < 19 {
            assert(v4_pool()[i] != v4_pool()[j]);
        } else if i >= 19 && j >= 19 {
            assert(v6_pool()[i - 19] != v6_pool()[j - 19]);
        }
    }
    assert(all.no_duplicates());
    all.unique_seq_to_set();
    assert forall|a: IpAddress| all.to_set().contains(a) implies recent.to_set().contains(a) by {
        assert(all.contains(a));
        let k = choose|k: int| 0 <= k < all.len() && all[k] == a;
        if k < 19 {
            assert(recent.contains(IpAddress::V4(v4_pool()[k])));
        } else {
            assert(recent.contains(IpAddress::V6(v6_pool()[k - 19])));
        }
    }
    assert(all.to_set().subset_of(recent.to_set()));
    recent.lemma_cardinality_of_set();
    vstd::set_lib::lemma_len_subset(all.to_set(), recent.to_set());
}

/// Pool of camouflage source addresses.
pub struct CIPPool {
    ipv4_pool: Vec<u32>,
    ipv6_pool: Vec<u128>,
    current_index: usize,
    cooldown: VecDeque<IpAddress>,
    cooldown_secs: u64,
}

impl CIPPool {
    /// The pools are the fixed ones, the rotation index is in the IPv4 pool
    /// and at most 100 addresses cool down.
    pub closed spec fn wf(&self) -> bool {
        &&& self.pools_ok()
        &&& run_ending_at(self.current_index as int, self.cooldown@)
    }

    /// The pools are the fixed ones, the rotation index is in the IPv4 pool
    /// and at most 100 addresses cool down.
    closed spec fn pools_ok(&self) -> bool {
        &&& self.ipv4_pool@ == v4_pool()
        &&& self.ipv6_pool@ == v6_pool()
        &&& self.current_index < 19
        &&& self.cooldown@.len() <= 100
    }

    /// The IPv4 addresses the rotation runs through, in order.
    pub closed spec fn ipv4_addresses(&self) -> Seq<u32> {
        self.ipv4_pool@
    }

    /// The IPv6 shadow addresses.
    pub closed spec fn ipv6_addresses(&self) -> Seq<u128> {
        self.ipv6_pool@
    }

    /// A well-formed pool rotates through 127.0.0.2-127.0.0.20, draws shadow
    /// addresses from 2001:db8::0-2001:db8::63, stands at one of the 19
    /// rotation positions and remembers at most 100 recent addresses; the
    /// IPv4 addresses among them are, oldest first, the run of rotation
    /// entries ending at the current position.
    pub proof fn lemma_pools(&self)
        requires
            self.wf(),
        ensures
            self.ipv4_addresses() == v4_pool(),
            self.ipv6_addresses() == v6_pool(),
            self.rotation() < 19,
            self.recent().len() <= 100,
            run_ending_at(self.rotation() as int, self.recent()),
    {
    }

    /// Position of the last IPv4 address handed out.
    pub closed spec fn rotation(&self) -> usize {
        self.current_index
    }

    /// Recently used addresses, oldest first.
    pub closed spec fn recent(&self) -> Seq<IpAddress> {
        self.cooldown@
    }

    /// Seconds an address cools down.
    pub closed spec fn cooldown_period(&self) -> u64 {
        self.cooldown_secs
    }

    /// The pools: 127.0.0.2-127.0.0.20 and 2001:db8::0-2001:db8::63; no
    /// address used yet; 30 s cooldown.
    pub fn new() -> (r: Self)
        ensures
            r.wf(),
            r.ipv4_addresses() == v4_pool(),
            r.ipv6_addresses() == v6_pool(),
            r.rotation() == 0,
            r.recent() == Seq::<IpAddress>::empty(),
            r.cooldown_period() == 30,
    {
        let mut ipv4_pool: Vec<u32> = Vec::new();
        let mut i: u32 = 2;
        while i <= 20
            invariant
                2 <= i <= 21,
                ipv4_pool@ == Seq::new((i - 2) as nat, |j: int| (V4_POOL_FIRST + j) as u32),
            decreases 21 - i,
        {
            ipv4_pool.push(0x7F00_0000u32 + i);
            i = i + 1;
            assert(ipv4_pool@ =~= Seq::new((i - 2) as nat, |j: int| (V4_POOL_FIRST + j) as u32));
        }
        let mut ipv6_pool: Vec<u128> = Vec::new();
        let mut k: u128 = 0;
        while k < 100
            invariant
                0 <= k <= 100,
                ipv6_pool@ == Seq::new(k as nat, |j: int| (V6_POOL_BASE + j) as u128),
            decreases 100 - k,
        {
            ipv6_pool.push(V6_POOL_BASE + k);
            k = k + 1;
            assert(ipv6_pool@ =~= Seq::new(k as nat, |j: int| (V6_POOL_BASE + j) as u128));
        }
        let r = CIPPool {
            ipv4_pool,
            ipv6_pool,
            current_index: 0,
            cooldown: VecDeque::new(),
            cooldown_secs: 30,
        };
        assert(v4_entries(r.cooldown@) =~= v4_run(0, 0));
        r
    }

    /// Records `ip` as just used; the rotation already stands where `ip`
    /// leaves it.
    fn remember(&mut self, ip: IpAddress)
        requires
            old(self).pools_ok(),
            run_ending_at(old(self).current_index as int, old(self).cooldown@.push(ip)),
        ensures
            final(self).wf(),
            final(self).recent() == remembered(old(self).recent(), ip),
            final(self).rotation() == old(self).rotation(),
            final(self).cooldown_period() == old(self).cooldown_period(),
    {
        let ghost c = self.cooldown@.push(ip);
        self.cooldown.push_back(ip);
        if self.cooldown.len() > COOLDOWN_CAPACITY {
            self.cooldown.pop_front();
            proof {
                lemma_v4_entries_drop_first(c);
                if c[0] is V4 {
                    lemma_run_drops_oldest(self.current_index as int, v4_entries(c).len() as int);
                }
                assert(self.cooldown@ =~= c.subrange(1, c.len() as int));
            }
        }
    }

    /// The first position from `start`, going round, whose IPv6 shadow
    /// address is not cooling down; `None` when all of them are.
    fn free_v6_from(&self, start: usize) -> (r: Option<usize>)
        requires
            self.wf(),
            start < 100,
        ensures
            match r {
                Some(i) => i < 100 && !self.recent().contains(IpAddress::V6(v6_pool()[i as int])),
                None => forall|i: int|
                    0 <= i < 100 ==> self.recent().contains(IpAddress::V6(#[trigger] v6_pool()[i])),
            },
    {
        let mut k: usize = 0;
        while k < 100
            invariant
                0 <= k <= 100,
                start < 100,
                self.wf(),
                forall|t: int|
                    0 <= t < k ==> self.recent().contains(
                        IpAddress::V6(#[trigger] v6_pool()[(start + t) % 100]),
                    ),
            decreases 100 - k,
        {
            let idx = (start + k) % 100;
            let ip = IpAddress::V6(self.ipv6_pool[idx]);
            if !self.is_in_cooldown(&ip) {
                return Some(idx);
            }
            k = k + 1;
        }
        proof {
            assert forall|i: int| 0 <= i < 100 implies self.recent().contains(IpAddress::V6(#[trigger] v6_pool()[i])) by {
                let t = if i >= start { i - start } else { i + 100 - start };
                assert((start + t) % 100 == i);
                assert(self.recent().contains(IpAddress::V6(v6_pool()[(start + t) % 100])));
            }
        }
        None
    }

    /// The next camouflage address, never one cooling down: with probability
    /// 3/10 a random IPv6 shadow address, otherwise the next IPv4 address in
    /// rotation. A cooling address is passed over: an IPv6 draw moves on to
    /// the next free IPv6 address; when the next IPv4 address is cooling (all
    /// 19 are), an IPv6 one is used instead, and when every IPv6 address is
    /// cooling the next IPv4 one is free (the pools hold 119 addresses, the
    /// cooldown at most 100). An IPv4 address handed out is always the pool
    /// entry after the previous one. The address is then remembered for the
    /// cooldown.
    pub fn next_ip(&mut self) -> (r: IpAddress)
        requires
            old(self).wf(),
        ensures
            final(self).wf(),
            !old(self).recent().contains(r),
            final(self).recent() == remembered(old(self).recent(), r),
            final(self).cooldown_period() == old(self).cooldown_period(),
            (is_shadow_ip(r) && final(self).rotation() == old(self).rotation()) || (
            final(self).rotation() == (old(self).rotation() + 1) % 19 && r == IpAddress::V4(
                v4_pool()[final(self).rotation() as int],
            )),
    {
        let use_v6 = random_ratio(3, 10);
        let rot = self.current_index;
        let succ = (rot + 1) % 19;
        let succ_ip = IpAddress::V4(self.ipv4_pool[succ]);
        let succ_free = !self.is_in_cooldown(&succ_ip);
        let ghost e = v4_entries(self.cooldown@);
        proof {
            lemma_v4_entries_contains(self.cooldown@, v4_pool()[succ as int]);
            if e.len() == 19 {
                lemma_full_run_covers_pool(rot as int, succ as int);
            } else {
                lemma_run_leaves_out_successor(rot as int, e.len() as int);
            }
        }
        let mut v6: Option<usize> = None;
        if use_v6 {
            let start = random_range(0, self.ipv6_pool.len());
            v6 = self.free_v6_from(start);
        } else if !succ_free {
            v6 = self.free_v6_from(0);
        }
        let ip = match v6 {
            Some(i) => {
                let ip = IpAddress::V6(self.ipv6_pool[i]);
                assert(ip == IpAddress::V6(v6_pool()[i as int]));
                proof {
                    lemma_v4_entries_push(self.cooldown@, ip);
                }
                ip
            },
            None => {
                if !succ_free {
                    proof {
                        assert(e.len() == 19);
                        assert forall|i: int| 0 <= i < 19 implies self.recent().contains(
                            IpAddress::V4(#[trigger] v4_pool()[i]),
                        ) by {
                            lemma_full_run_covers_pool(rot as int, i);
                            lemma_v4_entries_contains(self.cooldown@, v4_pool()[i]);
                        }
                        lemma_some_pool_address_free(self.recent());
                    }
                }
                proof {
                    lemma_v4_entries_push(self.cooldown@, succ_ip);
                    lemma_run_extends(rot as int, e.len() as int);
                }
                self.current_index = succ;
                succ_ip
            },
        };
        self.remember(ip);
        ip
    }

    /// Whether `ip` was used recently.
    pub fn is_in_cooldown(&self, ip: &IpAddress) -> (r: bool)
        ensures
            r == self.recent().contains(*ip),
    {
        let mut i: usize = 0;
        while i < self.cooldown.len()
            invariant
                0 <= i <= self.cooldown@.len(),
                forall|j: int| 0 <= j < i ==> self.cooldown@[j] != *ip,
            decreases self.cooldown@.len() - i,
        {
            if self.cooldown[i] == *ip {
                assert(self.cooldown@[i as int] == *ip);
                return true;
            }
            i = i + 1;
        }
        false
    }

    /// A random IPv6 shadow address (Conjure tactic).
    pub fn conjure_shadow_ip(&mut self) -> (r: IpAddress)
        requires
            old(self).wf(),
        ensures
            *final(self) == *old(self),
            is_shadow_ip(r),
    {
        let idx = random_range(0, self.ipv6_pool.len());
        let ip = IpAddress::V6(self.ipv6_pool[idx]);
        assert(ip == IpAddress::V6(v6_pool()[idx as int]));
        ip
    }

    /// A decoy packet of random bytes, 64 to 1023 of them.
    pub fn generate_decoy_packet(&self) -> (r: Vec<u8>)
        ensures
            64 <= r@.len() < 1024,
    {
        let size = random_range(64, 1024);
        random_bytes(size)
    }

    /// `count` random IPv6 shadow addresses.
    pub fn get_shadow_ips(&mut self, count: usize) -> (r: Vec<IpAddress>)
        requires
            old(self).wf(),
        ensures
            *final(self) == *old(self),
            r@.len() == count,
            forall|i: int| 0 <= i < count ==> is_shadow_ip(#[trigger] r@[i]),
    {
        let mut result: Vec<IpAddress> = Vec::new();
        let mut i: usize = 0;
        while i < count
            invariant
                0 <= i <= count,
                *self == *old(self),
                self.wf(),
                result@.len() == i,
                forall|j: int| 0 <= j < i ==> is_shadow_ip(#[trigger] result@[j]),
            decreases count - i,
        {
            let ip = self.conjure_shadow_ip();
            result.push(ip);
            i = i + 1;
        }
        result
    }
}

impl Default for CIPPool {
    fn default() -> (r: Self)
        ensures
            r.wf(),
            r.rotation() == 0,
            r.recent() == Seq::<IpAddress>::empty(),
    {
        Self::new()
    }
}

/// Schedules decoy traffic alongside the address rotation.
pub struct DecoyScheduler {
    interval_ms: u64,
    background_noise: bool,
    packet_size: usize,
}

impl DecoyScheduler {
    /// Milliseconds between decoys.
    pub closed spec fn interval(&self) -> u64 {
        self.interval_ms
    }

    /// Whether background noise is on.
    pub closed spec fn noise_enabled(&self) -> bool {
        self.background_noise
    }

    /// Size of a noise packet.
    pub closed spec fn noise_size(&self) -> usize {
        self.packet_size
    }

    /// A scheduler sending a decoy every `interval_ms`, noise on, 1024-byte
    /// packets (the size of a data packet).
    pub fn new(interval_ms: u64) -> (r: Self)
        ensures
            r.interval() == interval_ms,
            r.noise_enabled(),
            r.noise_size() == 1024,
    {
        DecoyScheduler { interval_ms, background_noise: true, packet_size: 1024 }
    }

    /// A noise packet of random bytes.
    pub fn generate_noise(&self) -> (r: Vec<u8>)
        ensures
            r@.len() == self.noise_size(),
    {
        random_bytes(self.packet_size)
    }

    /// Whether to send a decoy now: never with noise off, otherwise with
    /// probability 3/10 (random bursts).
    pub fn should_send_decoy(&self) -> (r: bool)
        ensures
            !self.noise_enabled() ==> !r,
    {
        if !self.background_noise {
            return false;
        }
        random_ratio(3, 10)
    }

    /// Turns background noise on or off.
    pub fn set_background_noise(&mut self, enabled: bool)
        ensures
            final(self).noise_enabled() == enabled,
            final(self).interval() == old(self).interval(),
            final(self).noise_size() == old(self).noise_size(),
    {
        self.background_noise = enabled;
    }
}

} // verus!
