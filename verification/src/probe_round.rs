//! The bookkeeping of one parallel traceroute round: probes for every TTL
//! from 1 to `max_hops` are sent at once, and each reply that comes back is
//! attributed to a hop.
//!
//! The caller performs the I/O (sending probes, receiving replies, reading the
//! clock) and hands each event to a `ProbeRound`; the round decides which hop
//! it fills. Times are nanoseconds on one monotonic clock chosen by the caller.
//!
//! A probe with a TTL larger than the path length also reaches the target, so
//! every such probe is answered by the target. Replies from the target
//! therefore only lower the candidate "target hop" (the smallest TTL at which
//! the target answered); they are never written to the hop of their own TTL.
use vstd::prelude::*;

use crate::error::AppError;

verus! {

/// One hop of a round: its number (the TTL), the address that answered
/// (an IPv4 address as a big-endian `u32`), and the round-trip time.
#[derive(Clone, Copy, Debug)]
pub struct FastHop {
    pub hop_number: u32,
    pub ip: Option<u32>,
    pub rtt_ns: Option<u64>,
}

/// The time between a send and `now`, when the probe was sent; a clock that
/// went backwards gives zero.
pub open spec fn elapsed(send: Option<u64>, now: u64) -> Option<u64> {
    match send {
        Some(t) => Some(if now >= t { (now - t) as u64 } else { 0 }),
        None => None,
    }
}

/// The candidate target hop after the target answered the probe with TTL `ttl`.
pub open spec fn lower_found(found: Option<u8>, ttl: u8) -> u8 {
    match found {
        Some(p) => if p <= ttl { p } else { ttl },
        None => ttl,
    }
}

/// Hops beyond TTL `t` (indices `t..`) that hold the target lose their address and time.
pub open spec fn cleared_beyond(hops: Seq<FastHop>, t: int, target: u32) -> Seq<FastHop> {
    Seq::new(
        hops.len(),
        |i: int|
            if i >= t && hops[i].ip == Some(target) {
                FastHop { hop_number: hops[i].hop_number, ip: None, rtt_ns: None }
            } else {
                hops[i]
            },
    )
}

/// Hop `t` (index `t - 1`) answered by `ip` after `rtt`.
pub open spec fn answered(hops: Seq<FastHop>, t: int, ip: u32, rtt: Option<u64>) -> Seq<FastHop> {
    hops.update(t - 1, FastHop { hop_number: hops[t - 1].hop_number, ip: Some(ip), rtt_ns: rtt })
}

/// The state after a reply for TTL `ttl` arrived at `now`: `(hops, target hop)`.
/// A reply from the target lowers the target hop, clears the target from
/// farther hops and marks the target hop; any other reply fills its own hop
/// unless that hop already answered.
pub open spec fn reply_effect(
    hops: Seq<FastHop>,
    sends: Seq<Option<u64>>,
    found: Option<u8>,
    target: u32,
    ttl: u8,
    from_target: bool,
    src_ip: u32,
    now: u64,
) -> (Seq<FastHop>, Option<u8>) {
    if ttl == 0 || ttl > hops.len() {
        (hops, found)
    } else if from_target {
        let t = lower_found(found, ttl);
        (answered(cleared_beyond(hops, t as int, target), t as int, target, elapsed(sends[t as int], now)), Some(t))
    } else if hops[ttl - 1].ip is Some {
        (hops, found)
    } else {
        (answered(hops, ttl as int, src_ip, elapsed(sends[ttl as int], now)), found)
    }
}

/// A hop has a time only when it has an address.
pub open spec fn times_only_with_addresses(hops: Seq<FastHop>) -> bool {
    forall|i: int| 0 <= i < hops.len() && (#[trigger] hops[i]).rtt_ns is Some ==> hops[i].ip is Some
}

/// A hop that has an address and whose probe's send was recorded has a time.
pub open spec fn sent_answers_timed(hops: Seq<FastHop>, sends: Seq<Option<u64>>) -> bool {
    forall|i: int|
        0 <= i < hops.len() && (#[trigger] hops[i]).ip is Some && sends[i + 1] is Some ==> hops[i].rtt_ns is Some
}

/// Answering a hop with the time since its send keeps both timing
/// properties.
pub proof fn lemma_answered_keeps_timing(hops: Seq<FastHop>, sends: Seq<Option<u64>>, t: int, ip: u32, now: u64)
    requires
        1 <= t <= hops.len(),
        sends.len() == hops.len() + 1,
    ensures
        times_only_with_addresses(hops) ==> times_only_with_addresses(
            answered(hops, t, ip, elapsed(sends[t], now)),
        ),
        sent_answers_timed(hops, sends) ==> sent_answers_timed(answered(hops, t, ip, elapsed(sends[t], now)), sends),
{
    let h2 = answered(hops, t, ip, elapsed(sends[t], now));
    assert forall|i: int| 0 <= i < h2.len() && i != t - 1 implies #[trigger] h2[i] == hops[i] by {}
}

/// Clearing the target beyond a hop keeps both timing properties.
pub proof fn lemma_cleared_keeps_timing(hops: Seq<FastHop>, sends: Seq<Option<u64>>, t: int, target: u32)
    ensures
        times_only_with_addresses(hops) ==> times_only_with_addresses(cleared_beyond(hops, t, target)),
        sent_answers_timed(hops, sends) ==> sent_answers_timed(cleared_beyond(hops, t, target), sends),
{
    let c = cleared_beyond(hops, t, target);
    if times_only_with_addresses(hops) {
        assert forall|i: int| 0 <= i < c.len() && (#[trigger] c[i]).rtt_ns is Some implies c[i].ip is Some by {
            assert(hops[i].rtt_ns is Some);
        }
    }
    if sent_answers_timed(hops, sends) {
        assert forall|i: int|
            0 <= i < c.len() && (#[trigger] c[i]).ip is Some && sends[i + 1] is Some implies c[i].rtt_ns is Some by {
            assert(hops[i].ip is Some);
        }
    }
}

/// What a reply does to the target hop and to where the target appears:
/// the target hop never grows; the target hop, once known, holds the target;
/// and, when a reply that is not counted as the target's does not carry the
/// target's address, the target appears at no other hop.
pub proof fn lemma_reply_effect_invariants(
    hops: Seq<FastHop>,
    sends: Seq<Option<u64>>,
    found: Option<u8>,
    target: u32,
    ttl: u8,
    from_target: bool,
    src_ip: u32,
    now: u64,
)
    requires
        sends.len() == hops.len() + 1,
        match found {
            Some(t) => 1 <= t <= hops.len(),
            None => true,
        },
    ensures
        ({
            let (h2, f2) = reply_effect(hops, sends, found, target, ttl, from_target, src_ip, now);
            &&& h2.len() == hops.len()
            &&& forall|i: int| 0 <= i < h2.len() ==> #[trigger] h2[i].hop_number == hops[i].hop_number
            &&& match f2 {
                Some(t) => 1 <= t <= hops.len(),
                None => true,
            }
            &&& match found {
                Some(p) => f2 matches Some(q) && q <= p,
                None => true,
            }
            &&& (match found {
                Some(t) => hops[t - 1].ip == Some(target),
                None => true,
            }) ==> (match f2 {
                Some(t) => h2[t - 1].ip == Some(target),
                None => true,
            })
            &&& ((forall|i: int|
                0 <= i < hops.len() && #[trigger] hops[i].ip == Some(target) ==> found == Some((i + 1) as u8))
                && (from_target || src_ip != target)) ==> (forall|i: int|
                0 <= i < h2.len() && #[trigger] h2[i].ip == Some(target) ==> f2 == Some((i + 1) as u8))
            &&& times_only_with_addresses(hops) ==> times_only_with_addresses(h2)
            &&& sent_answers_timed(hops, sends) ==> sent_answers_timed(h2, sends)
        }),
{
    let (h2, f2) = reply_effect(hops, sends, found, target, ttl, from_target, src_ip, now);
    if ttl == 0 || ttl > hops.len() {
    } else if from_target {
        let t = lower_found(found, ttl);
        let c = cleared_beyond(hops, t as int, target);
        lemma_cleared_keeps_timing(hops, sends, t as int, target);
        lemma_answered_keeps_timing(c, sends, t as int, target, now);
        assert(h2 == answered(c, t as int, target, elapsed(sends[t as int], now)));
        assert forall|i: int| 0 <= i < h2.len() implies #[trigger] h2[i].hop_number == hops[i].hop_number by {
            assert(c[i].hop_number == hops[i].hop_number);
        }
        if forall|i: int|
            0 <= i < hops.len() && #[trigger] hops[i].ip == Some(target) ==> found == Some((i + 1) as u8) {
            assert forall|i: int| 0 <= i < h2.len() && #[trigger] h2[i].ip == Some(target) implies f2 == Some(
                (i + 1) as u8,
            ) by {
                if i != t - 1 {
                    assert(h2[i] == c[i]);
                    if i >= t {
                        assert(c[i].ip is None || hops[i].ip != Some(target));
                    } else {
                        assert(c[i] == hops[i]);
                        assert(found == Some((i + 1) as u8));
                    }
                }
            }
        }
    } else if hops[ttl - 1].ip is Some {
    } else {
        lemma_answered_keeps_timing(hops, sends, ttl as int, src_ip, now);
        assert forall|i: int| 0 <= i < h2.len() implies #[trigger] h2[i].hop_number == hops[i].hop_number by {}
        match found {
            Some(t) => {
                if hops[t - 1].ip == Some(target) {
                    assert(t != ttl);
                    assert(h2[t - 1] == hops[t - 1]);
                }
            },
            None => {},
        }
    }
}

/// The state of one parallel traceroute round.
pub struct ProbeRound {
    target: u32,
    max_hops: u8,
    send_times: Vec<Option<u64>>,
    results: Vec<FastHop>,
    found_target_hop: Option<u8>,
}

impl ProbeRound {
    /// The address being traced.
    pub closed spec fn spec_target(&self) -> u32 {
        self.target
    }

    /// The number of TTLs probed.
    pub closed spec fn spec_max_hops(&self) -> u8 {
        self.max_hops
    }

    /// The hops, indexed by TTL - 1.
    pub closed spec fn hops(&self) -> Seq<FastHop> {
        self.results@
    }

    /// The send times, indexed by TTL (index 0 unused).
    pub closed spec fn sends(&self) -> Seq<Option<u64>> {
        self.send_times@
    }

    /// The smallest TTL at which the target answered, if any.
    pub closed spec fn found(&self) -> Option<u8> {
        self.found_target_hop
    }

    /// Well-formedness: one hop per TTL, numbered by TTL, one send time per
    /// TTL, a target hop within range, and a time only at a hop with an
    /// address.
    pub open spec fn wf(&self) -> bool {
        &&& times_only_with_addresses(self.hops())
        &&& 1 <= self.spec_max_hops() <= 64
        &&& self.hops().len() == self.spec_max_hops()
        &&& self.sends().len() == self.spec_max_hops() + 1
        &&& forall|i: int| 0 <= i < self.hops().len() ==> #[trigger] self.hops()[i].hop_number == i + 1
        &&& match self.found() {
            Some(t) => 1 <= t <= self.spec_max_hops(),
            None => true,
        }
    }

    /// The target hop, once known, holds the target's address.
    pub open spec fn target_at_found(&self) -> bool {
        match self.found() {
            Some(t) => self.hops()[t - 1].ip == Some(self.spec_target()),
            None => true,
        }
    }

    /// Every hop that has an address and whose probe's send was recorded has
    /// a time.
    pub open spec fn answers_timed(&self) -> bool {
        sent_answers_timed(self.hops(), self.sends())
    }

    /// The target's address appears at no hop but the target hop.
    pub open spec fn target_only_at_found(&self) -> bool {
        forall|i: int|
            0 <= i < self.hops().len() && #[trigger] self.hops()[i].ip == Some(self.spec_target())
                ==> self.found() == Some((i + 1) as u8)
    }

    /// A round towards `target` probing TTLs `1..=max_hops`, with `max_hops`
    /// clamped to `1..=64`; no probe sent and no hop answered yet.
    pub fn new(target: u32, max_hops: u32) -> (r: ProbeRound)
        ensures
            r.wf(),
            r.spec_target() == target,
            r.spec_max_hops() == (if max_hops < 1 { 1 } else if max_hops > 64 { 64 } else { max_hops }),
            forall|i: int| 0 <= i < r.hops().len() ==> #[trigger] r.hops()[i].ip is None && r.hops()[i].rtt_ns is None,
            forall|i: int| 0 <= i < r.sends().len() ==> #[trigger] r.sends()[i] is None,
            r.found() is None,
            r.target_at_found(),
            r.target_only_at_found(),
            r.answers_timed(),
    {
        let m: u8 = if max_hops < 1 {
            1
        } else if max_hops > 64 {
            64
        } else {
            max_hops as u8
        };
        let mut send_times: Vec<Option<u64>> = Vec::new();
        let mut results: Vec<FastHop> = Vec::new();
        send_times.push(None);
        let mut n: u8 = 1;
        while n <= m
            invariant
                1 <= n <= m + 1,
                1 <= m <= 64,
                send_times@.len() == n,
                results@.len() == n - 1,
                forall|i: int| 0 <= i < results@.len() ==> #[trigger] results@[i].hop_number == i + 1
                    && results@[i].ip is None && results@[i].rtt_ns is None,
                forall|i: int| 0 <= i < send_times@.len() ==> #[trigger] send_times@[i] is None,
            decreases m + 1 - n,
        {
            results.push(FastHop { hop_number: n as u32, ip: None, rtt_ns: None });
            send_times.push(None);
            n = n + 1;
        }
        let r = ProbeRound { target, max_hops: m, send_times, results, found_target_hop: None };
        assert forall|i: int| 0 <= i < r.hops().len() implies #[trigger] r.hops()[i].ip is None
            && r.hops()[i].rtt_ns is None by {
            assert(r.results@[i].hop_number == i + 1);
        }
        r
    }

    /// The number of TTLs probed.
    pub fn max_hops(&self) -> (r: u8)
        ensures
            r == self.spec_max_hops(),
    {
        self.max_hops
    }

    /// Records that the probe with TTL `ttl` left at `now`.
    pub fn record_send(&mut self, ttl: u8, now: u64)
        requires
            old(self).wf(),
            1 <= ttl <= old(self).spec_max_hops(),
        ensures
            final(self).wf(),
            final(self).sends() == old(self).sends().update(ttl as int, Some(now)),
            final(self).hops() == old(self).hops(),
            final(self).found() == old(self).found(),
            final(self).spec_target() == old(self).spec_target(),
            final(self).spec_max_hops() == old(self).spec_max_hops(),
            old(self).answers_timed() && old(self).hops()[ttl - 1].ip is None ==> final(self).answers_timed(),
    {
        self.send_times.set(ttl as usize, Some(now));
    }

    /// Whether the round may end early: the target answered and every hop up
    /// to the target hop has an address.
    pub fn all_done(&self) -> (r: bool)
        requires
            self.wf(),
        ensures
            r == (match self.found() {
                Some(t) => forall|i: int| 0 <= i < t ==> #[trigger] self.hops()[i].ip is Some,
                None => false,
            }),
    {
        match self.found_target_hop {
            None => false,
            Some(t) => {
                let mut i: usize = 0;
                while i < t as usize
                    invariant
                        t <= self.results@.len(),
                        self.found_target_hop == Some(t),
                        i <= t,
                        forall|j: int| 0 <= j < i ==> #[trigger] self.results@[j].ip is Some,
                    decreases t - i,
                {
                    if self.results[i].ip.is_none() {
                        assert(!(self.hops()[i as int].ip is Some));
                        return false;
                    }
                    i = i + 1;
                }
                true
            },
        }
    }

    /// Clears the target from the hops beyond TTL `t`.
    fn clear_target_beyond(&mut self, t: u8)
        requires
            old(self).wf(),
            1 <= t <= old(self).spec_max_hops(),
        ensures
            final(self).wf(),
            final(self).hops() == cleared_beyond(old(self).hops(), t as int, old(self).spec_target()),
            final(self).sends() == old(self).sends(),
            final(self).found() == old(self).found(),
            final(self).spec_target() == old(self).spec_target(),
            final(self).spec_max_hops() == old(self).spec_max_hops(),
    {
        let ghost before = self.results@;
        let mut c: usize = t as usize;
        while c < self.results.len()
            invariant
                t <= c <= self.results@.len(),
                self.results@.len() == before.len(),
                forall|i: int| 0 <= i < c ==> #[trigger] self.results@[i] == cleared_beyond(before, t as int, self.target)[i],
                forall|i: int| c <= i < before.len() ==> #[trigger] self.results@[i] == before[i],
                self.wf(),
                self.target == old(self).target,
                self.max_hops == old(self).max_hops,
                self.send_times@ == old(self).send_times@,
                self.found_target_hop == old(self).found_target_hop,
                before == old(self).results@,
            decreases self.results@.len() - c,
        {
            let hop = self.results[c];
            let holds_target = match hop.ip {
                Some(ip) => ip == self.target,
                None => false,
            };
            if holds_target {
                self.results.set(c, FastHop { hop_number: hop.hop_number, ip: None, rtt_ns: None });
            }
            c = c + 1;
        }
        assert(self.results@ =~= cleared_beyond(before, t as int, self.target));
    }

    /// The time since the probe with TTL `ttl` left, if it was sent.
    fn elapsed_since_send(&self, ttl: u8, now: u64) -> (r: Option<u64>)
        requires
            self.wf(),
            ttl <= self.spec_max_hops(),
        ensures
            r == elapsed(self.sends()[ttl as int], now),
    {
        match self.send_times[ttl as usize] {
            Some(t) => Some(if now >= t { now - t } else { 0 }),
            None => None,
        }
    }

    /// Writes an answer for hop `t`.
    fn answer(&mut self, t: u8, ip: u32, rtt: Option<u64>)
        requires
            old(self).wf(),
            1 <= t <= old(self).spec_max_hops(),
        ensures
            final(self).wf(),
            final(self).hops() == answered(old(self).hops(), t as int, ip, rtt),
            final(self).sends() == old(self).sends(),
            final(self).found() == old(self).found(),
            final(self).spec_target() == old(self).spec_target(),
            final(self).spec_max_hops() == old(self).spec_max_hops(),
    {
        let idx = (t - 1) as usize;
        let hop_number = self.results[idx].hop_number;
        self.results.set(idx, FastHop { hop_number, ip: Some(ip), rtt_ns: rtt });
    }

    /// Applies a reply for TTL `ttl` that came from the target or, when
    /// `from_target` is false, from the router `src_ip`.
    fn record_reply(&mut self, ttl: u8, from_target: bool, src_ip: u32, now: u64)
        requires
            old(self).wf(),
        ensures
            final(self).wf(),
            (final(self).hops(), final(self).found()) == reply_effect(
                old(self).hops(),
                old(self).sends(),
                old(self).found(),
                old(self).spec_target(),
                ttl,
                from_target,
                src_ip,
                now,
            ),
            final(self).sends() == old(self).sends(),
            final(self).spec_target() == old(self).spec_target(),
            final(self).spec_max_hops() == old(self).spec_max_hops(),
    {
        if ttl == 0 || ttl as usize > self.results.len() {
            return;
        }
        if from_target {
            let t = match self.found_target_hop {
                Some(prev) => if prev <= ttl { prev } else { ttl },
                None => ttl,
            };
            self.clear_target_beyond(t);
            let rtt = self.elapsed_since_send(t, now);
            let target = self.target;
            self.answer(t, target, rtt);
            self.found_target_hop = Some(t);
            return;
        }
        if self.results[(ttl - 1) as usize].ip.is_some() {
            return;
        }
        let rtt = self.elapsed_since_send(ttl, now);
        self.answer(ttl, src_ip, rtt);
    }

    /// Handles an ICMP reply to an echo probe: `reply_type` and `seq` as read
    /// from the packet, `src_ip` its sender. The probe's TTL is the low byte of
    /// the sequence number. Only an Echo Reply from the target itself counts
    /// as an answer of the target.
    pub fn on_echo_reply(&mut self, reply_type: u8, seq: u16, src_ip: u32, now: u64)
        requires
            old(self).wf(),
        ensures
            final(self).wf(),
            (final(self).hops(), final(self).found()) == reply_effect(
                old(self).hops(),
                old(self).sends(),
                old(self).found(),
                old(self).spec_target(),
                (seq % 256) as u8,
                reply_type == 0 && src_ip == old(self).spec_target(),
                src_ip,
                now,
            ),
            final(self).sends() == old(self).sends(),
            final(self).spec_target() == old(self).spec_target(),
            final(self).spec_max_hops() == old(self).spec_max_hops(),
            match old(self).found() {
                Some(p) => final(self).found() matches Some(q) && q <= p,
                None => true,
            },
            old(self).target_at_found() ==> final(self).target_at_found(),
            old(self).target_only_at_found() && (reply_type == 0 || src_ip != old(self).spec_target())
                ==> final(self).target_only_at_found(),
            old(self).answers_timed() ==> final(self).answers_timed(),
    {
        let ttl = (seq % 256) as u8;
        let from_target = reply_type == 0 && src_ip == self.target;
        let ghost before = *self;
        self.record_reply(ttl, from_target, src_ip, now);
        proof {
            lemma_reply_effect_invariants(
                before.hops(), before.sends(), before.found(), before.spec_target(), ttl, from_target, src_ip, now,
            );
        }
    }

    /// Handles an ICMP report, received at `recv_time`, on the UDP probe with
    /// TTL `ttl`, sent by `src_ip`; any report sent by the target counts as an
    /// answer of the target.
    pub fn process_udp_event(&mut self, ttl: u8, src_ip: u32, recv_time: u64)
        requires
            old(self).wf(),
        ensures
            final(self).wf(),
            (final(self).hops(), final(self).found()) == reply_effect(
                old(self).hops(),
                old(self).sends(),
                old(self).found(),
                old(self).spec_target(),
                ttl,
                src_ip == old(self).spec_target(),
                src_ip,
                recv_time,
            ),
            final(self).sends() == old(self).sends(),
            final(self).spec_target() == old(self).spec_target(),
            final(self).spec_max_hops() == old(self).spec_max_hops(),
            match old(self).found() {
                Some(p) => final(self).found() matches Some(q) && q <= p,
                None => true,
            },
            old(self).target_at_found() ==> final(self).target_at_found(),
            old(self).target_only_at_found() ==> final(self).target_only_at_found(),
            old(self).answers_timed() ==> final(self).answers_timed(),
    {
        let from_target = src_ip == self.target;
        let ghost before = *self;
        self.record_reply(ttl, from_target, src_ip, recv_time);
        proof {
            lemma_reply_effect_invariants(
                before.hops(), before.sends(), before.found(), before.spec_target(), ttl, from_target, src_ip, recv_time,
            );
        }
    }

    /// Records that the target answered the probe with TTL `ttl` at `now`.
    pub fn update_target_hop(&mut self, ttl: u8, now: u64)
        requires
            old(self).wf(),
        ensures
            final(self).wf(),
            (final(self).hops(), final(self).found()) == reply_effect(
                old(self).hops(),
                old(self).sends(),
                old(self).found(),
                old(self).spec_target(),
                ttl,
                true,
                old(self).spec_target(),
                now,
            ),
            final(self).sends() == old(self).sends(),
            final(self).spec_target() == old(self).spec_target(),
            final(self).spec_max_hops() == old(self).spec_max_hops(),
            match old(self).found() {
                Some(p) => final(self).found() matches Some(q) && q <= p,
                None => true,
            },
            old(self).target_at_found() ==> final(self).target_at_found(),
            old(self).target_only_at_found() ==> final(self).target_only_at_found(),
            old(self).answers_timed() ==> final(self).answers_timed(),
    {
        let target = self.target;
        let ghost before = *self;
        self.record_reply(ttl, true, target, now);
        proof {
            lemma_reply_effect_invariants(
                before.hops(), before.sends(), before.found(), before.spec_target(), ttl, true, target, now,
            );
        }
    }

    /// TCP traceroute: a router `src_ip` reported on the TCP probe with TTL
    /// `ttl`; the hop takes the first such report.
    pub fn on_tcp_time_exceeded(&mut self, ttl: u8, src_ip: u32, now: u64)
        requires
            old(self).wf(),
            1 <= ttl,
        ensures
            final(self).wf(),
            final(self).hops() == (if ttl <= old(self).hops().len() && old(self).hops()[ttl - 1].ip is None {
                answered(old(self).hops(), ttl as int, src_ip, elapsed(old(self).sends()[ttl as int], now))
            } else {
                old(self).hops()
            }),
            final(self).found() == old(self).found(),
            final(self).sends() == old(self).sends(),
            final(self).spec_target() == old(self).spec_target(),
            final(self).spec_max_hops() == old(self).spec_max_hops(),
            old(self).answers_timed() ==> final(self).answers_timed(),
    {
        let idx = (ttl - 1) as usize;
        if idx < self.results.len() && self.results[idx].ip.is_none() {
            proof {
                lemma_answered_keeps_timing(self.hops(), self.sends(), ttl as int, src_ip, now);
            }
            let rtt = self.elapsed_since_send(ttl, now);
            self.answer(ttl, src_ip, rtt);
        }
    }

    /// TCP traceroute: the connection of the probe with TTL `ttl` completed
    /// (or was refused), so that probe reached the target. The target hop is
    /// lowered to it; the target hop takes the target's address if it has no
    /// address yet.
    pub fn on_tcp_connected(&mut self, ttl: u8, now: u64)
        requires
            old(self).wf(),
            1 <= ttl <= old(self).spec_max_hops(),
        ensures
            final(self).wf(),
            final(self).found() == Some(lower_found(old(self).found(), ttl)),
            match old(self).found() {
                Some(p) => final(self).found() matches Some(q) && q <= p,
                None => true,
            },
            final(self).hops() == ({
                let t = lower_found(old(self).found(), ttl);
                if old(self).hops()[t - 1].ip is None {
                    answered(
                        old(self).hops(),
                        t as int,
                        old(self).spec_target(),
                        elapsed(old(self).sends()[t as int], now),
                    )
                } else {
                    old(self).hops()
                }
            }),
            final(self).sends() == old(self).sends(),
            final(self).spec_target() == old(self).spec_target(),
            final(self).spec_max_hops() == old(self).spec_max_hops(),
            old(self).answers_timed() ==> final(self).answers_timed(),
    {
        let t = match self.found_target_hop {
            Some(prev) => if prev <= ttl { prev } else { ttl },
            None => ttl,
        };
        let idx = (t - 1) as usize;
        if idx < self.results.len() && self.results[idx].ip.is_none() {
            proof {
                lemma_answered_keeps_timing(self.hops(), self.sends(), t as int, self.target, now);
            }
            let rtt = self.elapsed_since_send(t, now);
            let target = self.target;
            self.answer(t, target, rtt);
        }
        self.found_target_hop = Some(t);
    }

    /// Ends an ICMP round: with a target hop, the hops beyond it are dropped.
    pub fn finish_echo_round(self) -> (r: Vec<FastHop>)
        requires
            self.wf(),
        ensures
            r@ == (match self.found() {
                Some(t) => self.hops().take(t as int),
                None => self.hops(),
            }),
            forall|i: int| 0 <= i < r@.len() ==> #[trigger] r@[i].hop_number == i + 1,
            match self.found() {
                Some(t) => r@.len() == t && (self.target_at_found() ==> r@[t - 1].ip == Some(self.spec_target())),
                None => r@.len() == self.spec_max_hops(),
            },
            times_only_with_addresses(r@),
            self.answers_timed() ==> sent_answers_timed(r@, self.sends()),
    {
        let mut results = self.results;
        if let Some(t) = self.found_target_hop {
            results.truncate(t as usize);
        }
        results
    }

    /// Ends a UDP or TCP round at `now`: with a target hop, the target hop
    /// takes the target's address if it has none yet, and the hops beyond it
    /// are dropped.
    pub fn finish_port_round(self, now: u64) -> (r: Vec<FastHop>)
        requires
            self.wf(),
        ensures
            r@ == (match self.found() {
                Some(t) => if self.hops()[t - 1].ip is None {
                    answered(self.hops(), t as int, self.spec_target(), elapsed(self.sends()[t as int], now)).take(
                        t as int,
                    )
                } else {
                    self.hops().take(t as int)
                },
                None => self.hops(),
            }),
            forall|i: int| 0 <= i < r@.len() ==> #[trigger] r@[i].hop_number == i + 1,
            match self.found() {
                Some(t) => r@.len() == t && r@[t - 1].ip is Some && (self.target_at_found() ==> r@[t - 1].ip == Some(
                    self.spec_target(),
                )),
                None => r@.len() == self.spec_max_hops(),
            },
            times_only_with_addresses(r@),
            self.answers_timed() ==> sent_answers_timed(r@, self.sends()),
    {
        let mut round = self;
        if let Some(t) = round.found_target_hop {
            if round.results[(t - 1) as usize].ip.is_none() {
                let rtt = round.elapsed_since_send(t, now);
                let target = round.target;
                round.answer(t, target, rtt);
            }
            let mut results = round.results;
            results.truncate(t as usize);
            return results;
        }
        round.results
    }

    /// Ends a round without dropping any hop.
    pub fn into_hops(self) -> (r: Vec<FastHop>)
        ensures
            r@ == self.hops(),
    {
        self.results
    }
}

/// The IPv4 address of an echo-API reply, stored with its first octet in the
/// low byte, as a big-endian `u32`.
pub open spec fn address_from_le(a: u32) -> u32 {
    ((a % 256) * 16777216 + ((a / 256) % 256) * 65536 + ((a / 65536) % 256) * 256 + a / 16777216) as u32
}

/// The status codes of an echo-API reply that carry a usable address: success
/// (the target answered) and TTL expired in transit or in reassembly.
pub open spec fn usable_echo_status(status: u32) -> bool {
    status == 0 || status == 11013 || status == 11014
}

/// The hop for TTL `ttl` described by an echo-API reply: the reported
/// round-trip time in milliseconds, or, when it reads zero, the time measured
/// by the caller but at least 0.1 ms.
pub open spec fn echo_api_hop(ttl: u8, status: u32, address: u32, round_trip_ms: u32, elapsed_ns: u64) -> Option<
    FastHop,
> {
    if usable_echo_status(status) {
        Some(
            FastHop {
                hop_number: ttl as u32,
                ip: Some(address_from_le(address)),
                rtt_ns: Some(
                    if round_trip_ms > 0 {
                        (round_trip_ms * 1_000_000) as u64
                    } else if elapsed_ns > 100_000 {
                        elapsed_ns
                    } else {
                        100_000u64
                    },
                ),
            },
        )
    } else {
        None
    }
}

/// Reads the first reply of the system echo API for the probe with TTL `ttl`.
pub fn echo_api_reply_hop(ttl: u8, status: u32, address: u32, round_trip_ms: u32, elapsed_ns: u64) -> (r: Option<
    FastHop,
>)
    ensures
        r == echo_api_hop(ttl, status, address, round_trip_ms, elapsed_ns),
{
    if status == 0 || status == 11013 || status == 11014 {
        let b0 = address % 256;
        let b1 = (address / 256) % 256;
        let b2 = (address / 65536) % 256;
        let b3 = address / 16777216;
        let ip = b0 * 16777216 + b1 * 65536 + b2 * 256 + b3;
        let rtt: u64 = if round_trip_ms > 0 {
            (round_trip_ms as u64) * 1_000_000
        } else if elapsed_ns > 100_000 {
            elapsed_ns
        } else {
            100_000
        };
        Some(FastHop { hop_number: ttl as u32, ip: Some(ip), rtt_ns: Some(rtt) })
    } else {
        None
    }
}

/// What a usable echo-API reply's address means: the reply stores the IPv4
/// address with its first octet in the low byte, so the hop's address has
/// the reply's low byte as its first octet, and so on up to the reply's high
/// byte as its last octet (192.168.0.1 arrives as 0x0100A8C0 and becomes
/// 0xC0A80001). An unusable status gives no hop.
pub proof fn lemma_echo_api_address_octets(ttl: u8, status: u32, address: u32, round_trip_ms: u32, elapsed_ns: u64)
    ensures
        usable_echo_status(status) ==> (echo_api_hop(ttl, status, address, round_trip_ms, elapsed_ns) matches Some(h)
            && h.hop_number == ttl && (h.ip matches Some(ip) && ip / 16777216 == address % 256 && (ip / 65536) % 256
            == (address / 256) % 256 && (ip / 256) % 256 == (address / 65536) % 256 && ip % 256 == address
            / 16777216)),
        !usable_echo_status(status) ==> echo_api_hop(ttl, status, address, round_trip_ms, elapsed_ns) is None,
        address_from_le(0x0100A8C0) == 0xC0A80001,
{
    let a = address;
    let ip = address_from_le(a);
    assert(ip / 16777216 == a % 256 && (ip / 65536) % 256 == (a / 256) % 256 && (ip / 256) % 256 == (a / 65536)
        % 256 && ip % 256 == a / 16777216) by (bit_vector)
        requires
            ip == ((a % 256) * 16777216 + ((a / 256) % 256) * 65536 + ((a / 65536) % 256) * 256 + a / 16777216) as u32,
    ;
    assert(address_from_le(0x0100A8C0) == 0xC0A80001);
}

/// The smallest TTL among the first `n` replies at which the target answered.
pub open spec fn echo_api_found(replies: Seq<Option<FastHop>>, target: u32, n: nat) -> Option<u8>
    decreases n,
{
    if n == 0 {
        None
    } else {
        match echo_api_found(replies, target, (n - 1) as nat) {
            Some(t) => Some(t),
            None => match replies[n - 1] {
                Some(h) => if h.ip == Some(target) {
                    Some(n as u8)
                } else {
                    None
                },
                None => None,
            },
        }
    }
}

/// The hop of TTL `i + 1` after the replies: a reply's address and time, or an
/// unanswered hop.
pub open spec fn echo_api_slot(replies: Seq<Option<FastHop>>, i: int) -> FastHop {
    match replies[i] {
        Some(h) => FastHop { hop_number: (i + 1) as u32, ip: h.ip, rtt_ns: h.rtt_ns },
        None => FastHop { hop_number: (i + 1) as u32, ip: None, rtt_ns: None },
    }
}

/// The path gathered from one reply (or none) per TTL: cut after the first
/// TTL at which the target answered.
pub open spec fn echo_api_path(replies: Seq<Option<FastHop>>, target: u32) -> Seq<FastHop> {
    let all = Seq::new(replies.len(), |i: int| echo_api_slot(replies, i));
    match echo_api_found(replies, target, replies.len()) {
        Some(t) => all.take(t as int),
        None => all,
    }
}

/// The text of the error returned when no hop answered.
pub open spec fn no_echo_reply_message() -> Seq<char> {
    "IcmpSendEcho2 未拿到任何跳响应（可能 iphlpapi 不可用或防火墙阻断）"@
}

/// Builds the path from the echo-API replies, one entry per TTL from 1 (`None`
/// when the probe got no usable reply). Fails when no hop answered, so that
/// the caller can fall back to another method.
pub fn assemble_echo_api_hops(target: u32, replies: &[Option<FastHop>]) -> (r: Result<Vec<FastHop>, AppError>)
    requires
        1 <= replies@.len() <= 64,
    ensures
        match r {
            Ok(hops) => hops@ == echo_api_path(replies@, target) && exists|i: int|
                0 <= i < hops@.len() && (#[trigger] hops@[i]).ip is Some,
            Err(e) => (forall|i: int|
                0 <= i < echo_api_path(replies@, target).len() ==> (#[trigger] echo_api_path(
                    replies@,
                    target,
                )[i]).ip is None) && (e matches AppError::TracerouteError(m) && m@ == no_echo_reply_message()),
        },
{
    let n = replies.len();
    let mut results: Vec<FastHop> = Vec::new();
    let mut found: Option<u8> = None;
    let mut i: usize = 0;
    while i < n
        invariant
            n == replies@.len(),
            n <= 64,
            i <= n,
            results@.len() == i,
            forall|j: int| 0 <= j < i ==> #[trigger] results@[j] == echo_api_slot(replies@, j),
            found == echo_api_found(replies@, target, i as nat),
            match found {
                Some(t) => 1 <= t <= i,
                None => true,
            },
        decreases n - i,
    {
        let hop_number = (i + 1) as u32;
        match replies[i] {
            Some(h) => {
                if found.is_none() {
                    let hits = match h.ip {
                        Some(ip) => ip == target,
                        None => false,
                    };
                    if hits {
                        found = Some((i + 1) as u8);
                    }
                }
                results.push(FastHop { hop_number, ip: h.ip, rtt_ns: h.rtt_ns });
            },
            None => {
                results.push(FastHop { hop_number, ip: None, rtt_ns: None });
            },
        }
        i = i + 1;
    }
    assert(results@ =~= Seq::new(replies@.len(), |i: int| echo_api_slot(replies@, i)));
    if let Some(t) = found {
        results.truncate(t as usize);
    }
    assert(results@ == echo_api_path(replies@, target));
    let mut k: usize = 0;
    while k < results.len()
        invariant
            k <= results@.len(),
            results@ == echo_api_path(replies@, target),
            forall|j: int| 0 <= j < k ==> (#[trigger] results@[j]).ip is None,
        decreases results@.len() - k,
    {
        if results[k].ip.is_some() {
            assert((results@[k as int]).ip is Some);
            assert(results@ == echo_api_path(replies@, target));
            assert(exists|i: int| 0 <= i < results@.len() && (#[trigger] results@[i]).ip is Some);
            return Ok(results);
        }
        k = k + 1;
    }
    Err(AppError::TracerouteError(String::from_str("IcmpSendEcho2 未拿到任何跳响应（可能 iphlpapi 不可用或防火墙阻断）")))
}

/// What a non-blocking TCP probe's socket reports when polled: no pending
/// error, with whether it has a peer (it connected); a pending error, with
/// its operating-system code when it has one; or nothing readable.
#[derive(Debug, Clone, Copy)]
pub enum SocketCheck {
    NoError(bool),
    Error(Option<i32>),
    Unreadable,
}

/// Whether a polled TCP probe reached the target: `Some(true)` when it
/// connected or was refused (code 111 on Linux, 10061 on Windows: the
/// target answered with a reset), `Some(false)` for any other error,
/// `None` while the connection is still under way or the state is
/// unreadable.
pub open spec fn connect_outcome(c: SocketCheck) -> Option<bool> {
    match c {
        SocketCheck::NoError(connected) => if connected {
            Some(true)
        } else {
            None
        },
        SocketCheck::Error(code) => Some(code == Some(111i32) || code == Some(10061i32)),
        SocketCheck::Unreadable => None,
    }
}

/// Whether a polled TCP probe reached the target.
pub fn check_tcp_connect_done(c: SocketCheck) -> (r: Option<bool>)
    ensures
        r == connect_outcome(c),
{
    match c {
        SocketCheck::NoError(connected) => if connected {
            Some(true)
        } else {
            None
        },
        SocketCheck::Error(code) => {
            let refused = match code {
                Some(x) => x == 111 || x == 10061,
                None => false,
            };
            Some(refused)
        },
        SocketCheck::Unreadable => None,
    }
}

} // verus!
