//! Per-session sliding window: sequence numbers, in-order delivery of
//! out-of-order packets, retransmission of timed-out packets.

use vstd::prelude::*;
use crate::clock::unix_time_millis;
use crate::concurrent::{
    recv_buffer_clear, recv_buffer_contents, recv_buffer_insert, recv_buffer_new,
    recv_buffer_remove,
};
use dashmap::DashMap;
use std::collections::VecDeque;

verus! {

/// A packet waiting for its acknowledgement.
#[derive(Debug, Clone)]
pub struct WindowEntry {
    pub sequence: u32,
    pub data: Vec<u8>,
    /// Send time in milliseconds.
    pub sent_at: u64,
    pub retries: u8,
}

/// The receiving half of a window: the next expected sequence number, the
/// window size and the out-of-order packets held back.
pub struct RecvState {
    pub recv_seq: u32,
    pub window_size: u32,
    pub buffered: Map<u32, Seq<u8>>,
}

/// The sequence number after `s`, wrapping at `u32::MAX`.
pub open spec fn next_seq(s: u32) -> u32 {
    vstd::wrapping::u32_specs::wrapping_add(s, 1)
}

/// Delivers the run of buffered packets that starts at `s`: their payloads
/// joined in order, the first sequence number not buffered, and what stays
/// buffered.
pub open spec fn drain(buf: Map<u32, Seq<u8>>, s: u32) -> (Seq<u8>, u32, Map<u32, Seq<u8>>)
    decreases buf.dom().len(),
    when buf.dom().finite()
{
    if buf.contains_key(s) {
        let rest = drain(buf.remove(s), next_seq(s));
        (buf[s] + rest.0, rest.1, rest.2)
    } else {
        (Seq::empty(), s, buf)
    }
}

/// One received packet: what the receive state becomes and what is handed
/// to the application.
/// - a sequence number below the expected one is a duplicate: dropped;
/// - the expected one is delivered together with the buffered run after it;
/// - one inside the window is buffered;
/// - one beyond the window is dropped (replay protection).
pub open spec fn receive_step(s: RecvState, seq: u32, data: Seq<u8>) -> (RecvState, Option<Seq<u8>>) {
    if seq < s.recv_seq {
        (s, None)
    } else if seq == s.recv_seq {
        let d = drain(s.buffered, next_seq(seq));
        (RecvState { recv_seq: d.1, window_size: s.window_size, buffered: d.2 }, Some(data + d.0))
    } else if seq < vstd::wrapping::u32_specs::wrapping_add(s.recv_seq, s.window_size) {
        (
            RecvState {
                recv_seq: s.recv_seq,
                window_size: s.window_size,
                buffered: s.buffered.insert(seq, data),
            },
            None,
        )
    } else {
        (s, None)
    }
}

/// A packet below the expected sequence number is a duplicate: it changes
/// nothing and delivers nothing.
pub proof fn lemma_duplicate_dropped(s: RecvState, seq: u32, data: Seq<u8>)
    requires
        seq < s.recv_seq,
    ensures
        receive_step(s, seq, data) == (s, Option::<Seq<u8>>::None),
{
}

/// Draining the buffered run from `s` moves the expected sequence number
/// forward by as many packets as leave the buffer.
proof fn lemma_drain_advances(buf: Map<u32, Seq<u8>>, s: u32)
    requires
        buf.dom().finite(),
        s + buf.dom().len() <= u32::MAX,
    ensures
        drain(buf, s).1 >= s,
        drain(buf, s).2.dom().finite(),
        drain(buf, s).1 + drain(buf, s).2.dom().len() == s + buf.dom().len(),
    decreases buf.dom().len(),
{
    if buf.contains_key(s) {
        assert(buf.remove(s).dom() =~= buf.dom().remove(s));
        assert(next_seq(s) == s + 1);
        lemma_drain_advances(buf.remove(s), next_seq(s));
    }
}

/// The receive state after the packets `calls` arrive in order.
pub open spec fn receive_run(s: RecvState, calls: Seq<(u32, Seq<u8>)>) -> RecvState
    decreases calls.len(),
{
    if calls.len() == 0 {
        s
    } else {
        let before = receive_run(s, calls.drop_last());
        receive_step(before, calls.last().0, calls.last().1).0
    }
}

/// One received packet never moves the expected sequence number back, and
/// adds at most one to it plus the number of buffered packets (away from
/// the wrap at `u32::MAX`).
proof fn lemma_receive_step_advances(s: RecvState, seq: u32, data: Seq<u8>)
    requires
        s.buffered.dom().finite(),
        s.recv_seq + s.buffered.dom().len() < u32::MAX,
    ensures
        receive_step(s, seq, data).0.buffered.dom().finite(),
        receive_step(s, seq, data).0.recv_seq >= s.recv_seq,
        receive_step(s, seq, data).0.recv_seq + receive_step(s, seq, data).0.buffered.dom().len()
            <= s.recv_seq + s.buffered.dom().len() + 1,
{
    if seq == s.recv_seq {
        assert(next_seq(seq) == seq + 1);
        lemma_drain_advances(s.buffered, next_seq(seq));
    } else if s.recv_seq < seq && seq < vstd::wrapping::u32_specs::wrapping_add(s.recv_seq, s.window_size) {
        if s.buffered.contains_key(seq) {
            assert(s.buffered.insert(seq, data).dom() =~= s.buffered.dom());
        } else {
            assert(s.buffered.insert(seq, data).dom() =~= s.buffered.dom().insert(seq));
        }
    }
}

/// A sequence number once delivered is dropped by every later call: after
/// any run of arriving packets (short of the wrap at `u32::MAX`), it is
/// still below the expected one, so a packet carrying it again is refused
/// without effect.
pub proof fn lemma_delivered_stays_dropped(s: RecvState, calls: Seq<(u32, Seq<u8>)>, seq: u32, data: Seq<u8>)
    requires
        s.buffered.dom().finite(),
        seq < s.recv_seq,
        s.recv_seq + s.buffered.dom().len() + calls.len() <= u32::MAX,
    ensures
        seq < receive_run(s, calls).recv_seq,
        receive_step(receive_run(s, calls), seq, data) == (receive_run(s, calls), Option::<Seq<u8>>::None),
{
    lemma_run_advances(s, calls);
}

/// Each sequence number is delivered at most once: when a packet delivers a
/// run (its own number `seq` up to just below the next expected number),
/// every number `t` in that run is dropped without effect by any later
/// packet, whatever packets arrive in between (short of the wrap at
/// `u32::MAX`).
pub proof fn lemma_replay_dropped(
    s: RecvState,
    seq: u32,
    data: Seq<u8>,
    calls: Seq<(u32, Seq<u8>)>,
    t: u32,
    replay: Seq<u8>,
)
    requires
        s.buffered.dom().finite(),
        s.recv_seq + s.buffered.dom().len() + calls.len() + 1 <= u32::MAX,
        receive_step(s, seq, data).1 is Some,
        seq <= t < receive_step(s, seq, data).0.recv_seq,
    ensures
        ({
            let later = receive_run(receive_step(s, seq, data).0, calls);
            receive_step(later, t, replay) == (later, Option::<Seq<u8>>::None)
        }),
{
    lemma_receive_step_advances(s, seq, data);
    let s1 = receive_step(s, seq, data).0;
    lemma_delivered_stays_dropped(s1, calls, t, replay);
}

proof fn lemma_run_advances(s: RecvState, calls: Seq<(u32, Seq<u8>)>)
    requires
        s.buffered.dom().finite(),
        s.recv_seq + s.buffered.dom().len() + calls.len() <= u32::MAX,
    ensures
        receive_run(s, calls).buffered.dom().finite(),
        receive_run(s, calls).recv_seq >= s.recv_seq,
        receive_run(s, calls).recv_seq + receive_run(s, calls).buffered.dom().len()
            <= s.recv_seq + s.buffered.dom().len() + calls.len(),
    decreases calls.len(),
{
    if calls.len() > 0 {
        lemma_run_advances(s, calls.drop_last());
        let before = receive_run(s, calls.drop_last());
        lemma_receive_step_advances(before, calls.last().0, calls.last().1);
    }
}

/// With nothing held back, the expected packet is delivered at once, alone,
/// and the next sequence number becomes the expected one.
pub proof fn lemma_in_order_delivered(s: RecvState, data: Seq<u8>)
    requires
        s.buffered == Map::<u32, Seq<u8>>::empty(),
    ensures
        receive_step(s, s.recv_seq, data) == (
        RecvState { recv_seq: next_seq(s.recv_seq), window_size: s.window_size, buffered: s.buffered },
        Some(data),
        ),
{
    assert(s.buffered.dom() =~= Set::<u32>::empty());
    assert(data + Seq::<u8>::empty() =~= data);
}

/// Two packets arriving in swapped order are delivered together, in
/// sequence order, once the earlier one arrives: the later one is held back,
/// then the earlier one releases both.
pub proof fn lemma_swapped_pair_delivered_in_order(s: RecvState, d0: Seq<u8>, d1: Seq<u8>)
    requires
        s.buffered == Map::<u32, Seq<u8>>::empty(),
        s.window_size >= 2,
        s.recv_seq + s.window_size <= u32::MAX,
    ensures
        ({
            let first = receive_step(s, (s.recv_seq + 1) as u32, d1);
            let second = receive_step(first.0, s.recv_seq, d0);
            &&& first.1 is None
            &&& second.1 == Some(d0 + d1)
            &&& second.0.recv_seq == s.recv_seq + 2
            &&& second.0.buffered == Map::<u32, Seq<u8>>::empty()
        }),
{
    let r = s.recv_seq;
    let r1 = (r + 1) as u32;
    let b1 = s.buffered.insert(r1, d1);
    assert(b1.dom() =~= set![r1]);
    assert(b1.remove(r1) =~= Map::<u32, Seq<u8>>::empty());
    assert(Map::<u32, Seq<u8>>::empty().dom() =~= Set::<u32>::empty());
    let tail = drain(Map::<u32, Seq<u8>>::empty(), (r + 2) as u32);
    assert(tail == (Seq::<u8>::empty(), (r + 2) as u32, Map::<u32, Seq<u8>>::empty()));
    assert(drain(b1, r1) == (d1 + Seq::<u8>::empty(), (r + 2) as u32, Map::<u32, Seq<u8>>::empty()));
    assert(d1 + Seq::<u8>::empty() =~= d1);
}

/// Milliseconds from `sent_at` to `now`, zero when `sent_at` is later.
pub open spec fn elapsed(now: u64, sent_at: u64) -> int {
    if now >= sent_at {
        now - sent_at
    } else {
        0
    }
}

/// The entry has waited at least `timeout` milliseconds at time `now`.
pub open spec fn timed_out(e: WindowEntry, now: u64, timeout: u64) -> bool {
    elapsed(now, e.sent_at) >= timeout
}

/// An entry as sent again at `now`: one more retry, sent at `now`.
pub open spec fn resent_entry(e: WindowEntry, now: u64) -> WindowEntry {
    WindowEntry { retries: (e.retries + 1) as u8, sent_at: now, ..e }
}

/// The queue after handling timeouts at `now`: an entry that has not timed
/// out stays as it is; a timed-out one that has been retried `max_retries`
/// times is given up; any other timed-out one stays, as sent again at `now`.
/// The order is kept.
pub open spec fn after_tick(p: Seq<WindowEntry>, now: u64, timeout: u64, max_retries: u8) -> Seq<WindowEntry>
    decreases p.len(),
{
    if p.len() == 0 {
        Seq::empty()
    } else {
        let rest = after_tick(p.drop_last(), now, timeout, max_retries);
        let e = p.last();
        if !timed_out(e, now, timeout) {
            rest.push(e)
        } else if e.retries >= max_retries {
            rest
        } else {
            rest.push(resent_entry(e, now))
        }
    }
}

/// The `(sequence, payload)` pairs sent again when handling timeouts at
/// `now`: the timed-out entries retried fewer than `max_retries` times, in
/// order.
pub open spec fn retransmissions(p: Seq<WindowEntry>, now: u64, timeout: u64, max_retries: u8) -> Seq<(u32, Seq<u8>)>
    decreases p.len(),
{
    if p.len() == 0 {
        Seq::empty()
    } else {
        let rest = retransmissions(p.drop_last(), now, timeout, max_retries);
        let e = p.last();
        if timed_out(e, now, timeout) && e.retries < max_retries {
            rest.push((e.sequence, e.data@))
        } else {
            rest
        }
    }
}

/// The entries of `p` whose sequence number is not `seq`, in order.
pub open spec fn without_seq(p: Seq<WindowEntry>, seq: u32) -> Seq<WindowEntry>
    decreases p.len(),
{
    if p.len() == 0 {
        Seq::empty()
    } else {
        let rest = without_seq(p.drop_last(), seq);
        if p.last().sequence == seq {
            rest
        } else {
            rest.push(p.last())
        }
    }
}

/// After an acknowledgement no queued entry carries the acknowledged
/// sequence number, and every other entry stays queued.
pub proof fn lemma_ack_removes_only_that_packet(p: Seq<WindowEntry>, seq: u32)
    ensures
        forall|i: int| 0 <= i < without_seq(p, seq).len() ==> (#[trigger] without_seq(p, seq)[i]).sequence != seq,
        forall|i: int| 0 <= i < p.len() && (#[trigger] p[i]).sequence != seq ==> without_seq(p, seq).contains(p[i]),
        forall|i: int| 0 <= i < without_seq(p, seq).len() ==> p.contains(#[trigger] without_seq(p, seq)[i]),
    decreases p.len(),
{
    if p.len() > 0 {
        let q = p.drop_last();
        lemma_ack_removes_only_that_packet(q, seq);
        let rest = without_seq(q, seq);
        assert forall|i: int| 0 <= i < p.len() && (#[trigger] p[i]).sequence != seq implies without_seq(p, seq).contains(p[i]) by {
            if i < p.len() - 1 {
                assert(q[i] == p[i]);
                let k = choose|k: int| 0 <= k < rest.len() && rest[k] == q[i];
                if p.last().sequence != seq {
                    assert(without_seq(p, seq)[k] == p[i]);
                }
            } else {
                assert(without_seq(p, seq)[rest.len() as int] == p[i]);
            }
        }
        assert forall|i: int| 0 <= i < without_seq(p, seq).len() implies p.contains(#[trigger] without_seq(p, seq)[i]) by {
            if i < rest.len() {
                assert(without_seq(p, seq)[i] == rest[i]);
                let k = choose|k: int| 0 <= k < q.len() && q[k] == rest[i];
                assert(p[k] == q[k]);
            } else {
                assert(p[p.len() - 1] == p.last());
            }
        }
    }
}

/// Every queued packet that has waited at least the timeout and has been
/// retried fewer times than the limit is sent again, and stays queued as
/// sent again at `now`; a packet that has not waited the timeout is neither
/// sent again nor changed.
pub proof fn lemma_timed_out_packet_resent(p: Seq<WindowEntry>, now: u64, timeout: u64, max_retries: u8, i: int)
    requires
        0 <= i < p.len(),
    ensures
        timed_out(p[i], now, timeout) && p[i].retries < max_retries ==> {
            &&& retransmissions(p, now, timeout, max_retries).contains((p[i].sequence, p[i].data@))
            &&& after_tick(p, now, timeout, max_retries).contains(resent_entry(p[i], now))
        },
        !timed_out(p[i], now, timeout) ==> after_tick(p, now, timeout, max_retries).contains(p[i]),
    decreases p.len(),
{
    let q = p.drop_last();
    let rq = retransmissions(q, now, timeout, max_retries);
    let aq = after_tick(q, now, timeout, max_retries);
    if i < p.len() - 1 {
        assert(q[i] == p[i]);
        lemma_timed_out_packet_resent(q, now, timeout, max_retries, i);
        if timed_out(p[i], now, timeout) && p[i].retries < max_retries {
            let j = choose|j: int| 0 <= j < rq.len() && rq[j] == (p[i].sequence, p[i].data@);
            assert(retransmissions(p, now, timeout, max_retries)[j] == rq[j]);
            let k = choose|k: int| 0 <= k < aq.len() && aq[k] == resent_entry(p[i], now);
            assert(after_tick(p, now, timeout, max_retries)[k] == aq[k]);
        }
        if !timed_out(p[i], now, timeout) {
            let k = choose|k: int| 0 <= k < aq.len() && aq[k] == p[i];
            assert(after_tick(p, now, timeout, max_retries)[k] == aq[k]);
        }
    } else {
        assert(p.last() == p[i]);
        let r = retransmissions(p, now, timeout, max_retries);
        let a = after_tick(p, now, timeout, max_retries);
        if timed_out(p[i], now, timeout) && p[i].retries < max_retries {
            assert(r[r.len() - 1] == (p[i].sequence, p[i].data@));
            assert(a[a.len() - 1] == resent_entry(p[i], now));
        }
        if !timed_out(p[i], now, timeout) {
            assert(a[a.len() - 1] == p[i]);
        }
    }
}

/// A packet queued at time `t` and never acknowledged is sent again by the
/// first handling of timeouts at a time at least `timeout` after `t` (when
/// retries are allowed at all), and not by one earlier than that.
pub proof fn lemma_send_then_tick(p: Seq<WindowEntry>, seq: u32, data: Vec<u8>, t: u64, now: u64, timeout: u64, max_retries: u8)
    requires
        max_retries > 0,
        now >= t,
    ensures
        ({
            let q = p.push(WindowEntry { sequence: seq, data, sent_at: t, retries: 0 });
            &&& now - t >= timeout ==> retransmissions(q, now, timeout, max_retries).last() == (seq, data@)
            &&& now - t < timeout ==> retransmissions(q, now, timeout, max_retries) == retransmissions(p, now, timeout, max_retries)
        }),
{
    let q = p.push(WindowEntry { sequence: seq, data, sent_at: t, retries: 0 });
    assert(q.drop_last() =~= p);
}

/// The plain view of retransmitted packets.
pub open spec fn packets_view(v: Seq<(u32, Vec<u8>)>) -> Seq<(u32, Seq<u8>)> {
    v.map_values(|p: (u32, Vec<u8>)| (p.0, p.1@))
}

/// Sliding window of one session.
pub struct SlidingWindow {
    send_seq: u32,
    recv_seq: u32,
    window_size: u32,
    send_buffer: VecDeque<WindowEntry>,
    recv_buffer: DashMap<u32, Vec<u8>>,
    max_retries: u8,
    timeout_ms: u64,
}

impl SlidingWindow {
    /// The sequence number the next sent packet gets.
    pub closed spec fn next_send_seq(&self) -> u32 {
        self.send_seq
    }

    /// The receive state.
    pub closed spec fn recv_state(&self) -> RecvState {
        RecvState {
            recv_seq: self.recv_seq,
            window_size: self.window_size,
            buffered: recv_buffer_contents(self.recv_buffer),
        }
    }

    /// Sent packets not yet acknowledged or given up, oldest first.
    pub closed spec fn pending(&self) -> Seq<WindowEntry> {
        self.send_buffer@
    }

    /// How often a packet is retransmitted at most.
    pub closed spec fn retry_limit(&self) -> u8 {
        self.max_retries
    }

    /// Milliseconds after which an unacknowledged packet times out.
    pub closed spec fn timeout(&self) -> u64 {
        self.timeout_ms
    }

    /// An empty window of the given size: sequence numbers from 0, three
    /// retries, a 1000 ms timeout.
    pub fn new(window_size: u32) -> (r: Self)
        ensures
            r.next_send_seq() == 0,
            r.recv_state() == (RecvState {
                recv_seq: 0,
                window_size,
                buffered: Map::empty(),
            }),
            r.pending() == Seq::<WindowEntry>::empty(),
            r.retry_limit() == 3,
            r.timeout() == 1000,
    {
        let recv_buffer = recv_buffer_new();
        assert(recv_buffer_contents(recv_buffer) =~= Map::empty());
        SlidingWindow {
            send_seq: 0,
            recv_seq: 0,
            window_size,
            send_buffer: VecDeque::with_capacity(window_size as usize),
            recv_buffer,
            max_retries: 3,
            timeout_ms: 1000,
        }
    }

    /// Queues `data` as sent at time `now` (milliseconds) and returns its
    /// sequence number; the next one follows it, wrapping at `u32::MAX`.
    pub fn send_at(&mut self, data: Vec<u8>, now: u64) -> (r: u32)
        ensures
            r == old(self).next_send_seq(),
            final(self).next_send_seq() == next_seq(r),
            final(self).pending() == old(self).pending().push(
                WindowEntry { sequence: r, data, sent_at: now, retries: 0 },
            ),
            final(self).recv_state() == old(self).recv_state(),
            final(self).retry_limit() == old(self).retry_limit(),
            final(self).timeout() == old(self).timeout(),
    {
        let seq = self.send_seq;
        self.send_seq = self.send_seq.wrapping_add(1);
        self.send_buffer.push_back(WindowEntry { sequence: seq, data, sent_at: now, retries: 0 });
        seq
    }

    /// Queues `data` as sent now and returns its sequence number.
    pub fn send(&mut self, data: Vec<u8>) -> (r: u32)
        ensures
            r == old(self).next_send_seq(),
            final(self).next_send_seq() == next_seq(r),
            final(self).pending().len() == old(self).pending().len() + 1,
            final(self).pending().drop_last() == old(self).pending(),
            final(self).pending().last().sequence == r,
            final(self).pending().last().data == data,
            final(self).pending().last().retries == 0,
            final(self).recv_state() == old(self).recv_state(),
            final(self).retry_limit() == old(self).retry_limit(),
            final(self).timeout() == old(self).timeout(),
    {
        let now = unix_time_millis();
        let r = self.send_at(data, now);
        assert(self.pending().drop_last() =~= old(self).pending());
        r
    }

    /// Takes in packet `seq`. Returns the payloads now deliverable in order:
    /// this packet's followed by those buffered right after it; `None` when
    /// the packet is a duplicate, out of the window, or buffered for later.
    pub fn receive(&mut self, seq: u32, data: Vec<u8>) -> (r: Option<Vec<u8>>)
        ensures
            final(self).recv_state() == receive_step(old(self).recv_state(), seq, data@).0,
            match r {
                Some(v) => receive_step(old(self).recv_state(), seq, data@).1 == Some(v@),
                None => receive_step(old(self).recv_state(), seq, data@).1 is None,
            },
            final(self).next_send_seq() == old(self).next_send_seq(),
            final(self).pending() == old(self).pending(),
            final(self).retry_limit() == old(self).retry_limit(),
            final(self).timeout() == old(self).timeout(),
    {
        if seq < self.recv_seq {
            return None;
        }
        if seq == self.recv_seq {
            self.recv_seq = self.recv_seq.wrapping_add(1);
            let ghost start = self.recv_seq;
            let ghost b0 = recv_buffer_contents(self.recv_buffer);
            let ghost goal = drain(b0, start);
            let mut result = data;
            loop
                invariant_except_break
                    result@ + drain(recv_buffer_contents(self.recv_buffer), self.recv_seq).0
                        == data@ + goal.0,
                    drain(recv_buffer_contents(self.recv_buffer), self.recv_seq).1 == goal.1,
                    drain(recv_buffer_contents(self.recv_buffer), self.recv_seq).2 == goal.2,
                    self.send_seq == old(self).send_seq,
                    self.send_buffer == old(self).send_buffer,
                    self.window_size == old(self).window_size,
                    self.max_retries == old(self).max_retries,
                    self.timeout_ms == old(self).timeout_ms,
                ensures
                    result@ == data@ + goal.0,
                    self.recv_seq == goal.1,
                    recv_buffer_contents(self.recv_buffer) == goal.2,
                    self.send_seq == old(self).send_seq,
                    self.send_buffer == old(self).send_buffer,
                    self.window_size == old(self).window_size,
                    self.max_retries == old(self).max_retries,
                    self.timeout_ms == old(self).timeout_ms,
                decreases recv_buffer_contents(self.recv_buffer).dom().len(),
            {
                let ghost buf = recv_buffer_contents(self.recv_buffer);
                let ghost cur = self.recv_seq;
                let key = self.recv_seq;
                match recv_buffer_remove(&mut self.recv_buffer, key) {
                    Some(buffered) => {
                        proof {
                            assert(buf.remove(cur).dom() =~= buf.dom().remove(cur));
                            assert(buf.dom() =~= buf.remove(cur).dom().insert(cur));
                        }
                        let ghost before = result@;
                        crate::bytes::append_bytes(&mut result, buffered.as_slice());
                        self.recv_seq = self.recv_seq.wrapping_add(1);
                        assert(result@ + drain(recv_buffer_contents(self.recv_buffer), self.recv_seq).0
                            =~= before + drain(buf, cur).0);
                    },
                    None => {
                        assert(buf.remove(cur) =~= buf);
                        assert(result@ + drain(buf, cur).0 =~= result@);
                        break ;
                    },
                }
            }
            return Some(result);
        }
        if seq < self.recv_seq.wrapping_add(self.window_size) {
            recv_buffer_insert(&mut self.recv_buffer, seq, data);
            return None;
        }
        None
    }

    /// Handles timeouts at time `now` (milliseconds): every queued packet
    /// that has waited at least the timeout is sent again (returned, in
    /// queue order) and stays queued with one more retry and `now` as its
    /// send time, unless it was already retried the maximum number of
    /// times, in which case it is given up.
    pub fn tick_at(&mut self, now: u64) -> (r: Vec<(u32, Vec<u8>)>)
        ensures
            final(self).pending() == after_tick(old(self).pending(), now, old(self).timeout(), old(self).retry_limit()),
            packets_view(r@) == retransmissions(old(self).pending(), now, old(self).timeout(), old(self).retry_limit()),
            final(self).next_send_seq() == old(self).next_send_seq(),
            final(self).recv_state() == old(self).recv_state(),
            final(self).retry_limit() == old(self).retry_limit(),
            final(self).timeout() == old(self).timeout(),
    {
        let ghost p = self.send_buffer@;
        assert(p.len() == self.send_buffer.len());
        let mut kept: VecDeque<WindowEntry> = VecDeque::new();
        let mut out: Vec<(u32, Vec<u8>)> = Vec::new();
        let mut i: usize = 0;
        loop
            invariant_except_break
                0 <= i <= p.len(),
                p.len() <= usize::MAX,
                self.send_buffer@ == p.subrange(i as int, p.len() as int),
                kept@ == after_tick(p.subrange(0, i as int), now, self.timeout_ms, self.max_retries),
                packets_view(out@) == retransmissions(p.subrange(0, i as int), now, self.timeout_ms, self.max_retries),
                self.send_seq == old(self).send_seq,
                self.recv_seq == old(self).recv_seq,
                self.recv_buffer == old(self).recv_buffer,
                self.window_size == old(self).window_size,
                self.max_retries == old(self).max_retries,
                self.timeout_ms == old(self).timeout_ms,
            ensures
                kept@ == after_tick(p, now, self.timeout_ms, self.max_retries),
                packets_view(out@) == retransmissions(p, now, self.timeout_ms, self.max_retries),
                self.send_seq == old(self).send_seq,
                self.recv_seq == old(self).recv_seq,
                self.recv_buffer == old(self).recv_buffer,
                self.window_size == old(self).window_size,
                self.max_retries == old(self).max_retries,
                self.timeout_ms == old(self).timeout_ms,
            decreases p.len() - i,
        {
            match self.send_buffer.pop_front() {
                Some(e) => {
                    assert(e == p[i as int]);
                    proof {
                        assert(p.subrange(0, i + 1).drop_last() =~= p.subrange(0, i as int));
                        assert(p.subrange(0, i + 1).last() == e);
                    }
                    let waited = now.saturating_sub(e.sent_at);
                    if waited < self.timeout_ms {
                        kept.push_back(e);
                    } else if e.retries >= self.max_retries {
                    } else {
                        let ghost before = out@;
                        out.push((e.sequence, e.data.clone()));
                        proof {
                            assert(packets_view(out@) =~= packets_view(before).push((e.sequence, e.data@)));
                        }
                        kept.push_back(WindowEntry { sequence: e.sequence, data: e.data, sent_at: now, retries: e.retries + 1 });
                    }
                    i = i + 1;
                    assert(self.send_buffer@ =~= p.subrange(i as int, p.len() as int));
                },
                None => {
                    assert(p.subrange(0, i as int) =~= p);
                    break ;
                },
            }
        }
        self.send_buffer = kept;
        out
    }

    /// Handles timeouts now: see `tick_at`.
    pub fn tick(&mut self) -> (r: Vec<(u32, Vec<u8>)>)
        ensures
            exists|now: u64|
                #![trigger after_tick(old(self).pending(), now, old(self).timeout(), old(self).retry_limit())]
                final(self).pending() == after_tick(old(self).pending(), now, old(self).timeout(), old(self).retry_limit())
                && packets_view(r@) == retransmissions(old(self).pending(), now, old(self).timeout(), old(self).retry_limit()),
            final(self).next_send_seq() == old(self).next_send_seq(),
            final(self).recv_state() == old(self).recv_state(),
            final(self).retry_limit() == old(self).retry_limit(),
            final(self).timeout() == old(self).timeout(),
    {
        let now = unix_time_millis();
        self.tick_at(now)
    }

    /// Acknowledges packet `seq`: every queued entry with that sequence
    /// number leaves the queue.
    pub fn ack(&mut self, seq: u32)
        ensures
            final(self).pending() == without_seq(old(self).pending(), seq),
            final(self).next_send_seq() == old(self).next_send_seq(),
            final(self).recv_state() == old(self).recv_state(),
            final(self).retry_limit() == old(self).retry_limit(),
            final(self).timeout() == old(self).timeout(),
    {
        let ghost p = self.send_buffer@;
        assert(p.len() == self.send_buffer.len());
        let mut kept: VecDeque<WindowEntry> = VecDeque::new();
        let mut i: usize = 0;
        loop
            invariant_except_break
                0 <= i <= p.len(),
                p.len() <= usize::MAX,
                self.send_buffer@ == p.subrange(i as int, p.len() as int),
                kept@ == without_seq(p.subrange(0, i as int), seq),
                self.send_seq == old(self).send_seq,
                self.recv_seq == old(self).recv_seq,
                self.recv_buffer == old(self).recv_buffer,
                self.window_size == old(self).window_size,
                self.max_retries == old(self).max_retries,
                self.timeout_ms == old(self).timeout_ms,
            ensures
                kept@ == without_seq(p, seq),
                self.send_seq == old(self).send_seq,
                self.recv_seq == old(self).recv_seq,
                self.recv_buffer == old(self).recv_buffer,
                self.window_size == old(self).window_size,
                self.max_retries == old(self).max_retries,
                self.timeout_ms == old(self).timeout_ms,
            decreases p.len() - i,
        {
            match self.send_buffer.pop_front() {
                Some(e) => {
                    assert(e == p[i as int]);
                    if e.sequence != seq {
                        kept.push_back(e);
                    }
                    proof {
                        assert(p.subrange(0, i + 1).drop_last() =~= p.subrange(0, i as int));
                    }
                    i = i + 1;
                    assert(self.send_buffer@ =~= p.subrange(i as int, p.len() as int));
                },
                None => {
                    assert(p.subrange(0, i as int) =~= p);
                    break ;
                },
            }
        }
        self.send_buffer = kept;
    }

    /// Sequence numbers of the queued packets, oldest first.
    pub fn pending_seqs(&self) -> (r: Vec<u32>)
        ensures
            r@ == self.pending().map_values(|e: WindowEntry| e.sequence),
    {
        let mut r: Vec<u32> = Vec::new();
        let mut i: usize = 0;
        while i < self.send_buffer.len()
            invariant
                0 <= i <= self.send_buffer@.len(),
                r@ == self.send_buffer@.subrange(0, i as int).map_values(
                    |e: WindowEntry| e.sequence,
                ),
            decreases self.send_buffer@.len() - i,
        {
            r.push(self.send_buffer[i].sequence);
            i = i + 1;
            assert(r@ =~= self.send_buffer@.subrange(0, i as int).map_values(
                |e: WindowEntry| e.sequence,
            ));
        }
        assert(self.send_buffer@.subrange(0, i as int) =~= self.send_buffer@);
        r
    }

    /// Starts over for a new tunnel: both sequence numbers back to 0, both
    /// buffers emptied.
    pub fn reset(&mut self)
        ensures
            final(self).next_send_seq() == 0,
            final(self).recv_state() == (RecvState {
                recv_seq: 0,
                window_size: old(self).recv_state().window_size,
                buffered: Map::empty(),
            }),
            final(self).pending() == Seq::<WindowEntry>::empty(),
            final(self).retry_limit() == old(self).retry_limit(),
            final(self).timeout() == old(self).timeout(),
    {
        self.send_seq = 0;
        self.recv_seq = 0;
        self.send_buffer.clear();
        recv_buffer_clear(&mut self.recv_buffer);
        assert(recv_buffer_contents(self.recv_buffer) =~= Map::empty());
    }
}

} // verus!
