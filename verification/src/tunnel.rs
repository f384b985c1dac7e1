//! Tunnels (N main, N+2 standby) and failover between them.

use vstd::prelude::*;
use vstd::string::StringExecFns;
use crate::clock::unix_time_millis;
use crate::concurrent::{
    tunnel_table_contents, tunnel_table_insert, tunnel_table_new, tunnel_table_remove,
    tunnel_table_summaries,
};
use crate::crypto::SessionKey;
use crate::net::SocketAddress;
use crate::window::{next_seq, RecvState, SlidingWindow, WindowEntry};
use dashmap::DashMap;

verus! {

/// Tunnel state.
#[derive(Debug, Clone, Copy, PartialEq, Eq, Structural)]
pub enum TunnelState {
    Establishing,
    Established,
    Degraded,
    Failed,
    Ready,
}

/// One tunnel through the network.
pub struct Tunnel {
    pub id: u32,
    pub state: TunnelState,
    /// Entry, relay and exit hops.
    pub path: Vec<SocketAddress>,
    pub session_key: Option<SessionKey>,
    pub window: SlidingWindow,
    /// Creation and last-use times in milliseconds since the Unix epoch.
    pub created_at: u64,
    pub last_used: u64,
    pub rtt_ms: u32,
    pub bandwidth_mbps: u32,
    pub is_inbound: bool,
}

/// A tunnel as freshly set up: state `Establishing`, no key, an empty
/// 256-packet window, 100 ms round trip, 10 Mbit/s.
pub open spec fn fresh_tunnel(t: Tunnel, id: u32, path: Seq<SocketAddress>, is_inbound: bool) -> bool {
    &&& t.id == id
    &&& t.state == TunnelState::Establishing
    &&& t.path@ == path
    &&& t.session_key is None
    &&& t.window.next_send_seq() == 0
    &&& t.window.recv_state() == (RecvState { recv_seq: 0, window_size: 256, buffered: Map::empty() })
    &&& t.window.pending() == Seq::<WindowEntry>::empty()
    &&& t.rtt_ms == 100
    &&& t.bandwidth_mbps == 10
    &&& t.is_inbound == is_inbound
}

/// The round-trip estimate after a new sample: three parts old, one part new.
pub open spec fn smoothed_rtt(old_rtt: u32, sample: u32) -> int {
    (old_rtt * 3 + sample) / 4
}

impl Tunnel {
    /// A new tunnel over `path`, set up at `now` (milliseconds since the Unix
    /// epoch).
    pub fn new_at(id: u32, path: Vec<SocketAddress>, is_inbound: bool, now: u64) -> (r: Self)
        ensures
            fresh_tunnel(r, id, path@, is_inbound),
            r.created_at == now,
            r.last_used == now,
    {
        Tunnel {
            id,
            state: TunnelState::Establishing,
            path,
            session_key: None,
            window: SlidingWindow::new(256),
            created_at: now,
            last_used: now,
            rtt_ms: 100,
            bandwidth_mbps: 10,
            is_inbound,
        }
    }

    /// A new tunnel over `path`, set up now: see `new_at`.
    pub fn new(id: u32, path: Vec<SocketAddress>, is_inbound: bool) -> (r: Self)
        ensures
            fresh_tunnel(r, id, path@, is_inbound),
    {
        Self::new_at(id, path, is_inbound, unix_time_millis())
    }

    /// Healthy: under 300 ms round trip and not failed.
    pub fn is_healthy(&self) -> (r: bool)
        ensures
            r == (self.rtt_ms < 300 && self.state != TunnelState::Failed),
    {
        self.rtt_ms < 300 && self.state != TunnelState::Failed
    }

    /// Switches the state.
    pub fn set_state(&mut self, state: TunnelState)
        ensures
            *final(self) == (Tunnel { state, ..*old(self) }),
    {
        self.state = state;
    }

    /// Folds a round-trip sample into the moving average; above 500 ms the
    /// tunnel is marked `Degraded`.
    pub fn update_rtt(&mut self, new_rtt: u32)
        requires
            old(self).rtt_ms * 3 + new_rtt <= u32::MAX,
        ensures
            final(self).rtt_ms == smoothed_rtt(old(self).rtt_ms, new_rtt),
            final(self).state == (if final(self).rtt_ms > 500 {
                TunnelState::Degraded
            } else {
                old(self).state
            }),
            *final(self) == (Tunnel { rtt_ms: final(self).rtt_ms, state: final(self).state, ..*old(self) }),
    {
        self.rtt_ms = (self.rtt_ms * 3 + new_rtt) / 4;
        if self.rtt_ms > 500 {
            self.state = TunnelState::Degraded;
        }
    }
}

/// A tunnel that can carry traffic as a main tunnel.
pub open spec fn usable_main(t: Tunnel) -> bool {
    t.state == TunnelState::Established && t.rtt_ms < 300
}

/// A standby tunnel ready to take over.
pub open spec fn usable_reserve(t: Tunnel) -> bool {
    t.state == TunnelState::Ready
}

/// `r` lists, once each, up to `limit` ids of tunnels in `c` that `want`
/// accepts, and all of them when fewer than `limit` are listed.
pub open spec fn picks(c: Map<u32, Tunnel>, want: spec_fn(Tunnel) -> bool, limit: usize, r: Seq<u32>) -> bool {
    &&& r.len() <= limit
    &&& forall|i: int| 0 <= i < r.len() ==> c.contains_key(#[trigger] r[i]) && want(c[r[i]])
    &&& forall|i: int, j: int| 0 <= i < j < r.len() ==> #[trigger] r[i] != #[trigger] r[j]
    &&& r.len() < limit ==> forall|k: u32| #[trigger] c.contains_key(k) && want(c[k]) ==> r.contains(k)
}

/// The manager of a node's tunnels.
pub struct TunnelManager {
    tunnels: DashMap<u32, Tunnel>,
    main_count: usize,
    reserve_count: usize,
    next_id: u32,
}

impl TunnelManager {
    /// The tunnels by id.
    pub closed spec fn contents(&self) -> Map<u32, Tunnel> {
        tunnel_table_contents(self.tunnels)
    }

    /// How many main tunnels are used (N).
    pub closed spec fn main_limit(&self) -> usize {
        self.main_count
    }

    /// How many standby tunnels are kept (N + 2).
    pub closed spec fn reserve_limit(&self) -> usize {
        self.reserve_count
    }

    /// The id the next tunnel gets.
    pub closed spec fn next_tunnel_id(&self) -> u32 {
        self.next_id
    }

    /// Two standby tunnels more than main ones are kept; every tunnel is
    /// filed under its own id, and every id in use was handed out before the
    /// next one: a new tunnel never replaces an old one.
    pub open spec fn wf(&self) -> bool {
        &&& self.reserve_limit() == self.main_limit() + 2
        &&& forall|k: u32| #[trigger]
            self.contents().contains_key(k) ==> self.contents()[k].id == k && k < self.next_tunnel_id()
    }

    /// A manager for `main_count` main tunnels and two more standby ones.
    pub fn new(main_count: usize) -> (r: Self)
        requires
            main_count <= usize::MAX - 2,
        ensures
            r.wf(),
            r.contents() == Map::<u32, Tunnel>::empty(),
            r.main_limit() == main_count,
            r.reserve_limit() == main_count + 2,
            r.next_tunnel_id() == 0,
    {
        let tunnels = tunnel_table_new();
        assert(tunnel_table_contents(tunnels) =~= Map::<u32, Tunnel>::empty());
        TunnelManager { tunnels, main_count, reserve_count: main_count + 2, next_id: 0 }
    }

    /// Opens a main tunnel over `path` (state `Establishing`) under the next
    /// id and returns that id.
    pub fn create_main_tunnel(&mut self, path: Vec<SocketAddress>) -> (r: u32)
        requires
            old(self).next_tunnel_id() < u32::MAX,
        ensures
            old(self).wf() ==> final(self).wf() && !old(self).contents().contains_key(r),
            r == old(self).next_tunnel_id(),
            final(self).next_tunnel_id() == r + 1,
            final(self).contents().contains_key(r),
            final(self).contents() == old(self).contents().insert(r, final(self).contents()[r]),
            fresh_tunnel(final(self).contents()[r], r, path@, false),
            final(self).main_limit() == old(self).main_limit(),
            final(self).reserve_limit() == old(self).reserve_limit(),
    {
        let id = self.next_id;
        self.next_id = self.next_id + 1;
        let tunnel = Tunnel::new(id, path, false);
        tunnel_table_insert(&mut self.tunnels, id, tunnel);
        id
    }

    /// Opens a standby tunnel over `path` ahead of need (state `Ready`)
    /// under the next id and returns that id.
    pub fn create_reserve_tunnel(&mut self, path: Vec<SocketAddress>) -> (r: u32)
        requires
            old(self).next_tunnel_id() < u32::MAX,
        ensures
            old(self).wf() ==> final(self).wf() && !old(self).contents().contains_key(r),
            r == old(self).next_tunnel_id(),
            final(self).next_tunnel_id() == r + 1,
            final(self).contents().contains_key(r),
            final(self).contents() == old(self).contents().insert(r, final(self).contents()[r]),
            fresh_tunnel(
                Tunnel { state: TunnelState::Establishing, ..final(self).contents()[r] },
                r,
                path@,
                false,
            ),
            final(self).contents()[r].state == TunnelState::Ready,
            final(self).main_limit() == old(self).main_limit(),
            final(self).reserve_limit() == old(self).reserve_limit(),
    {
        let id = self.next_id;
        self.next_id = self.next_id + 1;
        let mut tunnel = Tunnel::new(id, path, false);
        tunnel.state = TunnelState::Ready;
        tunnel_table_insert(&mut self.tunnels, id, tunnel);
        id
    }

    /// Up to `limit` ids of tunnels that are `Ready` (when `reserve`) or
    /// established and under 300 ms (otherwise).
    fn select(&self, reserve: bool, limit: usize) -> (r: Vec<u32>)
        ensures
            picks(self.contents(), if reserve { |t: Tunnel| usable_reserve(t) } else { |t: Tunnel| usable_main(t) }, limit, r@),
    {
        let ghost c = self.contents();
        let ghost want = if reserve { |t: Tunnel| usable_reserve(t) } else { |t: Tunnel| usable_main(t) };
        let summaries = tunnel_table_summaries(&self.tunnels);
        let mut r: Vec<u32> = Vec::new();
        let ghost mut from: Seq<int> = Seq::empty();
        let mut i: usize = 0;
        while i < summaries.len()
            invariant
                0 <= i <= summaries@.len(),
                c == self.contents(),
                want == (if reserve { |t: Tunnel| usable_reserve(t) } else { |t: Tunnel| usable_main(t) }),
                forall|q: int|
                    0 <= q < summaries@.len() ==> c.contains_key(#[trigger] summaries@[q].0)
                        && c[summaries@[q].0].state == summaries@[q].1
                        && c[summaries@[q].0].rtt_ms == summaries@[q].2,
                forall|a: int, b: int| 0 <= a < b < summaries@.len() ==> #[trigger] summaries@[a].0 != #[trigger] summaries@[b].0,
                from.len() == r@.len(),
                forall|a: int| 0 <= a < r@.len() ==> 0 <= #[trigger] from[a] < i && summaries@[from[a]].0 == r@[a],
                forall|a: int, b: int| 0 <= a < b < r@.len() ==> from[a] < from[b],
                forall|a: int| 0 <= a < r@.len() ==> c.contains_key(#[trigger] r@[a]) && want(c[r@[a]]),
                forall|q: int| 0 <= q < i && want(c[#[trigger] summaries@[q].0]) ==> r@.contains(summaries@[q].0),
            decreases summaries@.len() - i,
        {
            let (id, state, rtt) = summaries[i];
            let take = if reserve {
                state == TunnelState::Ready
            } else {
                state == TunnelState::Established && rtt < 300
            };
            if take {
                let ghost before = r@;
                r.push(id);
                proof {
                    from = from.push(i as int);
                    assert(r@[r@.len() - 1] == id);
                    assert forall|q: int| 0 <= q < i + 1 && want(c[#[trigger] summaries@[q].0]) implies r@.contains(summaries@[q].0) by {
                        if q < i {
                            assert(before.contains(summaries@[q].0));
                            let a = choose|a: int| 0 <= a < before.len() && before[a] == summaries@[q].0;
                            assert(r@[a] == summaries@[q].0);
                        }
                    }
                }
            }
            i = i + 1;
        }
        proof {
            assert forall|a: int, b: int| 0 <= a < b < r@.len() implies #[trigger] r@[a] != #[trigger] r@[b] by {
                assert(summaries@[from[a]].0 != summaries@[from[b]].0);
            }
        }
        let ghost all = r@;
        r.truncate(limit);
        proof {
            if r@.len() < limit {
                assert(r@ == all);
                assert forall|k: u32| #[trigger] c.contains_key(k) && want(c[k]) implies r@.contains(k) by {
                    let q = choose|q: int| 0 <= q < summaries@.len() && #[trigger] summaries@[q].0 == k;
                }
            }
        }
        r
    }

    /// Ids of healthy main tunnels (established, under 300 ms), at most N.
    pub fn get_main_tunnels(&self) -> (r: Vec<u32>)
        ensures
            picks(self.contents(), |t: Tunnel| usable_main(t), self.main_limit(), r@),
    {
        self.select(false, self.main_count)
    }

    /// Ids of ready standby tunnels, at most N + 2.
    pub fn get_reserve_tunnels(&self) -> (r: Vec<u32>)
        ensures
            picks(self.contents(), |t: Tunnel| usable_reserve(t), self.reserve_limit(), r@),
    {
        self.select(true, self.reserve_count)
    }
}

} // verus!

verus! {

/// The error text for a tunnel id that is not known.
pub open spec fn missing_tunnel_text() -> Seq<char> {
    "隧道不存在"@
}

/// The error text for a tunnel that is not established.
pub open spec fn unestablished_tunnel_text() -> Seq<char> {
    "隧道未建立"@
}

/// The table after marking tunnel `id` failed, if it exists.
pub open spec fn mark_failed(c: Map<u32, Tunnel>, id: u32) -> Map<u32, Tunnel> {
    if c.contains_key(id) {
        c.insert(id, Tunnel { state: TunnelState::Failed, ..c[id] })
    } else {
        c
    }
}

impl TunnelManager {
    /// Fails over from tunnel `failed_id` at time `now` (milliseconds): it is
    /// marked `Failed` (if known), and the first ready standby tunnel becomes
    /// established, used at `now`, and is returned; `None` when there is no
    /// standby tunnel to promote.
    pub fn failover_at(&mut self, failed_id: u32, now: u64) -> (r: Option<u32>)
        ensures
            old(self).wf() ==> final(self).wf(),
            final(self).main_limit() == old(self).main_limit(),
            final(self).reserve_limit() == old(self).reserve_limit(),
            final(self).next_tunnel_id() == old(self).next_tunnel_id(),
            ({
                let c1 = mark_failed(old(self).contents(), failed_id);
                match r {
                    Some(id) => {
                        &&& c1.contains_key(id)
                        &&& usable_reserve(c1[id])
                        &&& final(self).contents() == c1.insert(
                            id,
                            Tunnel { state: TunnelState::Established, last_used: now, ..c1[id] },
                        )
                    },
                    None => {
                        &&& final(self).contents() == c1
                        &&& (old(self).reserve_limit() == 0 || forall|k: u32|
                            #[trigger] c1.contains_key(k) ==> !usable_reserve(c1[k]))
                    },
                }
            }),
    {
        let ghost c0 = self.contents();
        match tunnel_table_remove(&mut self.tunnels, failed_id) {
            Some(mut t) => {
                t.state = TunnelState::Failed;
                tunnel_table_insert(&mut self.tunnels, failed_id, t);
                assert(self.contents() =~= mark_failed(c0, failed_id));
            },
            None => {
                assert(self.contents() =~= mark_failed(c0, failed_id));
            },
        }
        let ghost c1 = self.contents();
        let reserves = self.get_reserve_tunnels();
        if reserves.len() > 0 {
            let rid = reserves[0];
            match tunnel_table_remove(&mut self.tunnels, rid) {
                Some(mut t) => {
                    t.state = TunnelState::Established;
                    t.last_used = now;
                    tunnel_table_insert(&mut self.tunnels, rid, t);
                    assert(self.contents() =~= c1.insert(
                        rid,
                        Tunnel { state: TunnelState::Established, last_used: now, ..c1[rid] },
                    ));
                    return Some(rid);
                },
                None => {
                    assert(false);
                },
            }
        }
        proof {
            if old(self).reserve_limit() != 0 {
                assert forall|k: u32| #[trigger] c1.contains_key(k) implies !usable_reserve(c1[k]) by {
                    if usable_reserve(c1[k]) {
                        assert(reserves@.contains(k));
                    }
                }
            }
        }
        None
    }

    /// Fails over from tunnel `failed_id` now: see `failover_at`.
    pub fn failover(&mut self, failed_id: u32) -> (r: Option<u32>)
        ensures
            old(self).wf() ==> final(self).wf(),
            final(self).main_limit() == old(self).main_limit(),
            final(self).reserve_limit() == old(self).reserve_limit(),
            final(self).next_tunnel_id() == old(self).next_tunnel_id(),
            ({
                let c1 = mark_failed(old(self).contents(), failed_id);
                match r {
                    Some(id) => {
                        &&& c1.contains_key(id)
                        &&& usable_reserve(c1[id])
                        &&& final(self).contents().dom() == c1.dom()
                        &&& final(self).contents().remove(id) == c1.remove(id)
                        &&& final(self).contents()[id] == (Tunnel {
                            state: TunnelState::Established,
                            last_used: final(self).contents()[id].last_used,
                            ..c1[id]
                        })
                    },
                    None => {
                        &&& final(self).contents() == c1
                        &&& (old(self).reserve_limit() == 0 || forall|k: u32|
                            #[trigger] c1.contains_key(k) ==> !usable_reserve(c1[k]))
                    },
                }
            }),
    {
        let now = unix_time_millis();
        let r = self.failover_at(failed_id, now);
        proof {
            let c1 = mark_failed(old(self).contents(), failed_id);
            if let Some(id) = r {
                assert(self.contents().dom() =~= c1.dom());
                assert(self.contents().remove(id) =~= c1.remove(id));
            }
        }
        r
    }

    /// Queues `data` on tunnel `tunnel_id` at time `now` (milliseconds) and
    /// returns its sequence number. Fails with "隧道不存在" for an unknown
    /// tunnel and with "隧道未建立" for one that is not established; nothing
    /// changes then.
    pub fn send_data_at(&mut self, tunnel_id: u32, data: Vec<u8>, now: u64) -> (r: Result<u32, String>)
        ensures
            old(self).wf() ==> final(self).wf(),
            final(self).main_limit() == old(self).main_limit(),
            final(self).reserve_limit() == old(self).reserve_limit(),
            final(self).next_tunnel_id() == old(self).next_tunnel_id(),
            ({
                let c = old(self).contents();
                if !c.contains_key(tunnel_id) {
                    &&& r matches Err(e) && e@ == missing_tunnel_text()
                    &&& final(self).contents() == c
                } else if c[tunnel_id].state != TunnelState::Established {
                    &&& r matches Err(e) && e@ == unestablished_tunnel_text()
                    &&& final(self).contents() == c
                } else {
                    let t = c[tunnel_id];
                    let t2 = final(self).contents()[tunnel_id];
                    &&& r == Ok::<u32, String>(t.window.next_send_seq())
                    &&& final(self).contents() == c.insert(tunnel_id, t2)
                    &&& t2 == (Tunnel { last_used: now, window: t2.window, ..t })
                    &&& t2.window.next_send_seq() == next_seq(t.window.next_send_seq())
                    &&& t2.window.pending() == t.window.pending().push(
                        WindowEntry { sequence: t.window.next_send_seq(), data, sent_at: now, retries: 0 },
                    )
                    &&& t2.window.recv_state() == t.window.recv_state()
                    &&& t2.window.retry_limit() == t.window.retry_limit()
                    &&& t2.window.timeout() == t.window.timeout()
                }
            }),
    {
        let ghost c = self.contents();
        match tunnel_table_remove(&mut self.tunnels, tunnel_id) {
            None => {
                assert(self.contents() =~= c);
                Err(String::from_str("隧道不存在"))
            },
            Some(mut t) => {
                if t.state != TunnelState::Established {
                    tunnel_table_insert(&mut self.tunnels, tunnel_id, t);
                    assert(self.contents() =~= c);
                    return Err(String::from_str("隧道未建立"));
                }
                t.last_used = now;
                let seq = t.window.send_at(data, now);
                tunnel_table_insert(&mut self.tunnels, tunnel_id, t);
                assert(self.contents() =~= c.insert(tunnel_id, self.contents()[tunnel_id]));
                Ok(seq)
            },
        }
    }

    /// Queues `data` on tunnel `tunnel_id` now: see `send_data_at`.
    pub fn send_data(&mut self, tunnel_id: u32, data: Vec<u8>) -> (r: Result<u32, String>)
        ensures
            old(self).wf() ==> final(self).wf(),
            final(self).main_limit() == old(self).main_limit(),
            final(self).reserve_limit() == old(self).reserve_limit(),
            final(self).next_tunnel_id() == old(self).next_tunnel_id(),
            ({
                let c = old(self).contents();
                if !c.contains_key(tunnel_id) {
                    &&& r matches Err(e) && e@ == missing_tunnel_text()
                    &&& final(self).contents() == c
                } else if c[tunnel_id].state != TunnelState::Established {
                    &&& r matches Err(e) && e@ == unestablished_tunnel_text()
                    &&& final(self).contents() == c
                } else {
                    let t = c[tunnel_id];
                    let t2 = final(self).contents()[tunnel_id];
                    &&& r == Ok::<u32, String>(t.window.next_send_seq())
                    &&& final(self).contents() == c.insert(tunnel_id, t2)
                    &&& t2 == (Tunnel { last_used: t2.last_used, window: t2.window, ..t })
                    &&& t2.window.next_send_seq() == next_seq(t.window.next_send_seq())
                    &&& t2.window.pending().len() == t.window.pending().len() + 1
                    &&& t2.window.pending().drop_last() == t.window.pending()
                    &&& t2.window.pending().last().sequence == t.window.next_send_seq()
                    &&& t2.window.pending().last().data == data
                    &&& t2.window.recv_state() == t.window.recv_state()
                }
            }),
    {
        let now = unix_time_millis();
        let r = self.send_data_at(tunnel_id, data, now);
        proof {
            let c = old(self).contents();
            if c.contains_key(tunnel_id) && c[tunnel_id].state == TunnelState::Established {
                let t2 = self.contents()[tunnel_id];
                assert(t2.window.pending().drop_last() =~= c[tunnel_id].window.pending());
            }
        }
        r
    }

    /// Hands packet `seq` of tunnel `tunnel_id` to its window at time `now`
    /// (milliseconds) and returns what the window delivers; `None` for an
    /// unknown tunnel (nothing changes then).
    pub fn receive_data_at(&mut self, tunnel_id: u32, seq: u32, data: Vec<u8>, now: u64) -> (r: Option<Vec<u8>>)
        ensures
            old(self).wf() ==> final(self).wf(),
            final(self).main_limit() == old(self).main_limit(),
            final(self).reserve_limit() == old(self).reserve_limit(),
            final(self).next_tunnel_id() == old(self).next_tunnel_id(),
            ({
                let c = old(self).contents();
                if !c.contains_key(tunnel_id) {
                    &&& r is None
                    &&& final(self).contents() == c
                } else {
                    let t = c[tunnel_id];
                    let t2 = final(self).contents()[tunnel_id];
                    let step = crate::window::receive_step(t.window.recv_state(), seq, data@);
                    &&& final(self).contents() == c.insert(tunnel_id, t2)
                    &&& t2 == (Tunnel { last_used: now, window: t2.window, ..t })
                    &&& t2.window.recv_state() == step.0
                    &&& crate::crypto::opt_bytes(r) == step.1
                    &&& t2.window.next_send_seq() == t.window.next_send_seq()
                    &&& t2.window.pending() == t.window.pending()
                }
            }),
    {
        let ghost c = self.contents();
        match tunnel_table_remove(&mut self.tunnels, tunnel_id) {
            None => {
                assert(self.contents() =~= c);
                None
            },
            Some(mut t) => {
                t.last_used = now;
                let r = t.window.receive(seq, data);
                tunnel_table_insert(&mut self.tunnels, tunnel_id, t);
                assert(self.contents() =~= c.insert(tunnel_id, self.contents()[tunnel_id]));
                r
            },
        }
    }

    /// Hands packet `seq` of tunnel `tunnel_id` to its window now: see
    /// `receive_data_at`.
    pub fn receive_data(&mut self, tunnel_id: u32, seq: u32, data: Vec<u8>) -> (r: Option<Vec<u8>>)
        ensures
            old(self).wf() ==> final(self).wf(),
            final(self).main_limit() == old(self).main_limit(),
            final(self).reserve_limit() == old(self).reserve_limit(),
            final(self).next_tunnel_id() == old(self).next_tunnel_id(),
            ({
                let c = old(self).contents();
                if !c.contains_key(tunnel_id) {
                    &&& r is None
                    &&& final(self).contents() == c
                } else {
                    let t = c[tunnel_id];
                    let t2 = final(self).contents()[tunnel_id];
                    let step = crate::window::receive_step(t.window.recv_state(), seq, data@);
                    &&& final(self).contents() == c.insert(tunnel_id, t2)
                    &&& t2 == (Tunnel { last_used: t2.last_used, window: t2.window, ..t })
                    &&& t2.window.recv_state() == step.0
                    &&& crate::crypto::opt_bytes(r) == step.1
                }
            }),
    {
        let now = unix_time_millis();
        self.receive_data_at(tunnel_id, seq, data, now)
    }
}

impl Default for TunnelManager {
    /// A manager for three main tunnels.
    fn default() -> (r: Self)
        ensures
            r.wf(),
            r.contents() == Map::<u32, Tunnel>::empty(),
            r.main_limit() == 3,
            r.reserve_limit() == 5,
            r.next_tunnel_id() == 0,
    {
        Self::new(3)
    }
}

} // verus!
