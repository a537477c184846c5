//! Continuous path monitoring (in the manner of mtr): each round traces the
//! whole path again; the decisions of a round live here, the probing and the
//! events in the caller.
use vstd::prelude::*;

use crate::models::ProbeMethod;
use crate::probe_round::FastHop;
use crate::text::{format_ipv4, ipv4_text};

verus! {

/// One hop of a round: its number, the address that answered, the host name
/// when known, the round-trip time in nanoseconds when measured, and whether
/// the probe timed out.
#[derive(Debug)]
pub struct RoundHop {
    pub hop_number: u32,
    pub ip: Option<String>,
    pub hostname: Option<String>,
    pub rtt_ns: Option<u64>,
    pub is_timeout: bool,
}

/// The text of an IPv4 address, when there is one.
pub open spec fn opt_ipv4_text(ip: Option<u32>) -> Option<Seq<char>> {
    match ip {
        Some(a) => Some(ipv4_text(a)),
        None => None,
    }
}

/// The text of an optional string.
pub open spec fn opt_text(o: Option<String>) -> Option<Seq<char>> {
    match o {
        Some(s) => Some(s@),
        None => None,
    }
}

/// The parallel prober's hop as a round hop: its address as text, no host
/// name yet, its time, and a timeout exactly when nothing answered.
pub open spec fn fast_round_hop(h: FastHop, r: RoundHop) -> bool {
    &&& r.hop_number == h.hop_number
    &&& opt_text(r.ip) == opt_ipv4_text(h.ip)
    &&& r.hostname is None
    &&& r.rtt_ns == h.rtt_ns
    &&& r.is_timeout == (h.ip is None)
}

/// The hops of the parallel prober as round hops, in order.
pub fn fast_hops_to_result(fast_hops: Vec<FastHop>) -> (r: Vec<RoundHop>)
    ensures
        r@.len() == fast_hops@.len(),
        forall|i: int| 0 <= i < r@.len() ==> fast_round_hop(fast_hops@[i], #[trigger] r@[i]),
{
    let mut out: Vec<RoundHop> = Vec::new();
    let mut i: usize = 0;
    while i < fast_hops.len()
        invariant
            i <= fast_hops@.len(),
            out@.len() == i,
            forall|k: int| 0 <= k < i ==> fast_round_hop(fast_hops@[k], #[trigger] out@[k]),
        decreases fast_hops@.len() - i,
    {
        let h = fast_hops[i];
        let ip = match h.ip {
            Some(a) => Some(format_ipv4(a)),
            None => None,
        };
        out.push(RoundHop {
            hop_number: h.hop_number,
            ip,
            hostname: None,
            rtt_ns: h.rtt_ns,
            is_timeout: h.ip.is_none(),
        });
        i = i + 1;
    }
    out
}

/// The hops that a system trace command named, as round hops: each with
/// its address, no host name, no time, and not counted as a timeout (the
/// command's output gives no times to judge by).
pub fn system_hops_to_result(hops: Vec<(u32, String)>) -> (r: Vec<RoundHop>)
    ensures
        r@.len() == hops@.len(),
        forall|i: int|
            0 <= i < r@.len() ==> {
                let x = #[trigger] r@[i];
                &&& x.hop_number == hops@[i].0
                &&& opt_text(x.ip) == Some(hops@[i].1@)
                &&& x.hostname is None
                &&& x.rtt_ns is None
                &&& !x.is_timeout
            },
{
    let mut out: Vec<RoundHop> = Vec::new();
    let mut i: usize = 0;
    while i < hops.len()
        invariant
            i <= hops@.len(),
            out@.len() == i,
            forall|k: int|
                0 <= k < i ==> {
                    let x = #[trigger] out@[k];
                    &&& x.hop_number == hops@[k].0
                    &&& opt_text(x.ip) == Some(hops@[k].1@)
                    &&& x.hostname is None
                    &&& x.rtt_ns is None
                    &&& !x.is_timeout
                },
        decreases hops@.len() - i,
    {
        out.push(RoundHop {
            hop_number: hops[i].0,
            ip: Some(hops[i].1.clone()),
            hostname: None,
            rtt_ns: None,
            is_timeout: false,
        });
        i = i + 1;
    }
    out
}

/// Some hop answered.
pub open spec fn some_hop_answered(hops: Seq<FastHop>) -> bool {
    exists|i: int| 0 <= i < hops.len() && (#[trigger] hops[i]).ip is Some
}

/// Whether any hop of a parallel trace answered.
pub fn any_hop_answered(hops: &Vec<FastHop>) -> (r: bool)
    ensures
        r == some_hop_answered(hops@),
{
    let mut i: usize = 0;
    while i < hops.len()
        invariant
            i <= hops@.len(),
            forall|k: int| 0 <= k < i ==> (#[trigger] hops@[k]).ip is None,
        decreases hops@.len() - i,
    {
        if hops[i].ip.is_some() {
            return true;
        }
        i = i + 1;
    }
    false
}

/// A hop before the target answered: some hop's address is not the
/// target's.
pub open spec fn has_intermediate_hop(hops: Seq<FastHop>, target: u32) -> bool {
    exists|i: int| 0 <= i < hops.len() && (#[trigger] hops[i]).ip is Some && hops[i].ip != Some(target)
}

/// A parallel trace is worth keeping: it found hops and one of them lies
/// before the target (else the raw sockets were likely blocked).
pub open spec fn usable_trace(hops: Seq<FastHop>, target: u32) -> bool {
    hops.len() > 0 && has_intermediate_hop(hops, target)
}

/// Whether a parallel trace to `target` is worth keeping.
pub fn fast_result_usable(hops: &Vec<FastHop>, target: u32) -> (r: bool)
    ensures
        r == usable_trace(hops@, target),
{
    let mut i: usize = 0;
    while i < hops.len()
        invariant
            i <= hops@.len(),
            forall|k: int| 0 <= k < i ==> !((#[trigger] hops@[k]).ip is Some && hops@[k].ip != Some(target)),
        decreases hops@.len() - i,
    {
        match hops[i].ip {
            Some(a) => {
                if a != target {
                    return true;
                }
            },
            None => {},
        }
        i = i + 1;
    }
    false
}

/// A way of probing the path in one round.
#[derive(Debug, Clone, Copy, PartialEq, Eq, Structural)]
pub enum PathProbe {
    /// Parallel ICMP echo probes on a raw socket.
    Icmp,
    /// Parallel UDP probes on raw sockets.
    Udp,
    /// Parallel TCP connection attempts.
    Tcp,
    /// UDP probes whose answers are read through the capture driver.
    CaptureUdp,
    /// TCP probes whose answers are read through the capture driver.
    CaptureTcp,
}

/// What the path discovery of a round does next.
#[derive(Debug, Clone, Copy, PartialEq, Eq, Structural)]
pub enum DiscoverAction {
    /// Run this probe and report how it went.
    Run(PathProbe),
    /// Fall back to the system trace command.
    SystemCommand,
    /// Keep the hops that the last probe found.
    UseHops,
}

/// How many more fallbacks a probe may lead to before the system command.
pub open spec fn probe_rank(p: PathProbe) -> int {
    match p {
        PathProbe::CaptureUdp | PathProbe::CaptureTcp => 2,
        PathProbe::Udp | PathProbe::Tcp => 1,
        PathProbe::Icmp => 0,
    }
}

/// The first step of a round: the system command when the target has no
/// IPv4 address; else the parallel probe of the chosen method (through the
/// capture driver for UDP and TCP when it is ready); an unknown method
/// starts with the ICMP fallback.
pub open spec fn discovery_start_action(resolved: bool, method: Option<ProbeMethod>, capture_ready: bool) -> DiscoverAction {
    if !resolved {
        DiscoverAction::SystemCommand
    } else {
        match method {
            Some(ProbeMethod::Udp) => DiscoverAction::Run(
                if capture_ready {
                    PathProbe::CaptureUdp
                } else {
                    PathProbe::Udp
                },
            ),
            Some(ProbeMethod::Tcp) => DiscoverAction::Run(
                if capture_ready {
                    PathProbe::CaptureTcp
                } else {
                    PathProbe::Tcp
                },
            ),
            _ => DiscoverAction::Run(PathProbe::Icmp),
        }
    }
}

/// The step after `ran` finished, with its hops or `None` when it failed: a
/// failed capture probe falls back to the raw-socket probe of its protocol;
/// hops worth keeping are kept; otherwise ICMP is the last parallel
/// fallback, and after ICMP the system command.
pub open spec fn discovery_next_action(ran: PathProbe, outcome: Option<Seq<FastHop>>, target: u32) -> DiscoverAction {
    if ran == PathProbe::CaptureUdp && outcome is None {
        DiscoverAction::Run(PathProbe::Udp)
    } else if ran == PathProbe::CaptureTcp && outcome is None {
        DiscoverAction::Run(PathProbe::Tcp)
    } else if outcome is Some && usable_trace(outcome->0, target) {
        DiscoverAction::UseHops
    } else if ran == PathProbe::Icmp {
        DiscoverAction::SystemCommand
    } else {
        DiscoverAction::Run(PathProbe::Icmp)
    }
}

/// The protocol that a probe sends.
pub open spec fn probe_protocol(p: PathProbe) -> ProbeMethod {
    match p {
        PathProbe::Icmp => ProbeMethod::Icmp,
        PathProbe::Udp | PathProbe::CaptureUdp => ProbeMethod::Udp,
        PathProbe::Tcp | PathProbe::CaptureTcp => ProbeMethod::Tcp,
    }
}

/// The first probe of a trace speaks the chosen protocol. A one-off
/// traceroute to an IPv4 target runs the parallel probe of its method when
/// that is UDP or TCP, and never goes through the capture driver; a round of
/// a continuous trace whose target resolved runs a probe of its method (ICMP
/// for an unknown method), through the capture driver exactly when it is
/// ready and the method is UDP or TCP. Without an IPv4 address both use the
/// system command.
pub proof fn lemma_start_speaks_chosen_protocol(method: ProbeMethod, ipv4: bool, capture_ready: bool)
    ensures
        trace_start_action(method, ipv4) matches DiscoverAction::Run(p) ==> probe_protocol(p) == method && (p
            == PathProbe::Udp || p == PathProbe::Tcp),
        ipv4 && method != ProbeMethod::Icmp ==> trace_start_action(method, ipv4) is Run,
        !ipv4 ==> trace_start_action(method, ipv4) == DiscoverAction::SystemCommand,
        discovery_start_action(true, Some(method), capture_ready) matches DiscoverAction::Run(p) && probe_protocol(p)
            == method && ((p == PathProbe::CaptureUdp || p == PathProbe::CaptureTcp) == (capture_ready && method
            != ProbeMethod::Icmp)),
        discovery_start_action(true, None, capture_ready) == DiscoverAction::Run(PathProbe::Icmp),
        discovery_start_action(false, Some(method), capture_ready) == DiscoverAction::SystemCommand,
{
}

/// After a probe fails or finds nothing usable, the next probe is the same
/// protocol without the capture driver (only after a failed capture probe)
/// or ICMP; usable hops are kept.
pub proof fn lemma_fallback_protocol(ran: PathProbe, outcome: Option<Seq<FastHop>>, target: u32)
    ensures
        discovery_next_action(ran, outcome, target) matches DiscoverAction::Run(p) ==> (p == PathProbe::Icmp || (
        probe_protocol(p) == probe_protocol(ran) && outcome is None)),
        (outcome matches Some(h) && usable_trace(h, target)) ==> discovery_next_action(ran, outcome, target)
            == DiscoverAction::UseHops,
        trace_next_action(ran, outcome) matches DiscoverAction::Run(p) ==> p == PathProbe::Icmp,
{
}

/// The first step of a round's path discovery.
pub fn discovery_start(resolved: bool, method: Option<ProbeMethod>, capture_ready: bool) -> (r: DiscoverAction)
    ensures
        r == discovery_start_action(resolved, method, capture_ready),
{
    if !resolved {
        return DiscoverAction::SystemCommand;
    }
    match method {
        Some(ProbeMethod::Udp) => DiscoverAction::Run(
            if capture_ready {
                PathProbe::CaptureUdp
            } else {
                PathProbe::Udp
            },
        ),
        Some(ProbeMethod::Tcp) => DiscoverAction::Run(
            if capture_ready {
                PathProbe::CaptureTcp
            } else {
                PathProbe::Tcp
            },
        ),
        _ => DiscoverAction::Run(PathProbe::Icmp),
    }
}

/// The step of a round's path discovery after the probe `ran` finished with
/// `outcome` (`None` when it failed). Each further probe has a lower rank,
/// so a round runs at most three probes.
pub fn discovery_next(ran: PathProbe, outcome: Option<&Vec<FastHop>>, target: u32) -> (r: DiscoverAction)
    ensures
        r == discovery_next_action(
            ran,
            match outcome {
                Some(v) => Some(v@),
                None => None,
            },
            target,
        ),
        r matches DiscoverAction::Run(p) ==> probe_rank(p) < probe_rank(ran),
{
    match outcome {
        None => {
            if ran == PathProbe::CaptureUdp {
                return DiscoverAction::Run(PathProbe::Udp);
            }
            if ran == PathProbe::CaptureTcp {
                return DiscoverAction::Run(PathProbe::Tcp);
            }
        },
        Some(hops) => {
            if fast_result_usable(hops, target) {
                return DiscoverAction::UseHops;
            }
        },
    }
    if ran == PathProbe::Icmp {
        DiscoverAction::SystemCommand
    } else {
        DiscoverAction::Run(PathProbe::Icmp)
    }
}

/// The first step of a one-off traceroute: ICMP goes straight to the system
/// command; UDP and TCP start with their parallel probe when the target
/// has an IPv4 address, and with the system command otherwise.
pub open spec fn trace_start_action(method: ProbeMethod, ipv4_target: bool) -> DiscoverAction {
    match method {
        ProbeMethod::Icmp => DiscoverAction::SystemCommand,
        ProbeMethod::Udp => if ipv4_target {
            DiscoverAction::Run(PathProbe::Udp)
        } else {
            DiscoverAction::SystemCommand
        },
        ProbeMethod::Tcp => if ipv4_target {
            DiscoverAction::Run(PathProbe::Tcp)
        } else {
            DiscoverAction::SystemCommand
        },
    }
}

/// The step of a one-off traceroute after the parallel probe `ran`: its
/// hops are kept when any hop answered; otherwise ICMP is the parallel
/// fallback, and after it the system command.
pub open spec fn trace_next_action(ran: PathProbe, outcome: Option<Seq<FastHop>>) -> DiscoverAction {
    if outcome is Some && some_hop_answered(outcome->0) {
        DiscoverAction::UseHops
    } else if ran == PathProbe::Icmp {
        DiscoverAction::SystemCommand
    } else {
        DiscoverAction::Run(PathProbe::Icmp)
    }
}

/// The first step of a one-off traceroute.
pub fn trace_start(method: ProbeMethod, ipv4_target: bool) -> (r: DiscoverAction)
    ensures
        r == trace_start_action(method, ipv4_target),
{
    match method {
        ProbeMethod::Icmp => DiscoverAction::SystemCommand,
        ProbeMethod::Udp => if ipv4_target {
            DiscoverAction::Run(PathProbe::Udp)
        } else {
            DiscoverAction::SystemCommand
        },
        ProbeMethod::Tcp => if ipv4_target {
            DiscoverAction::Run(PathProbe::Tcp)
        } else {
            DiscoverAction::SystemCommand
        },
    }
}

/// The step of a one-off traceroute after the parallel probe `ran`
/// finished with `outcome` (`None` when it failed).
pub fn trace_next(ran: PathProbe, outcome: Option<&Vec<FastHop>>) -> (r: DiscoverAction)
    ensures
        r == trace_next_action(
            ran,
            match outcome {
                Some(v) => Some(v@),
                None => None,
            },
        ),
        r matches DiscoverAction::Run(p) ==> probe_rank(p) < probe_rank(ran),
{
    match outcome {
        Some(hops) => {
            if any_hop_answered(hops) {
                return DiscoverAction::UseHops;
            }
        },
        None => {},
    }
    if ran == PathProbe::Icmp {
        DiscoverAction::SystemCommand
    } else {
        DiscoverAction::Run(PathProbe::Icmp)
    }
}

/// The (hop, address) pairs of a list of hops, as texts.
pub open spec fn pair_views(v: Seq<(u32, String)>) -> Seq<(u32, Seq<char>)> {
    v.map_values(|p: (u32, String)| (p.0, p.1@))
}

/// The hop numbers and addresses of a round.
pub open spec fn round_view(hops: Seq<RoundHop>) -> Seq<(u32, Option<Seq<char>>)> {
    hops.map_values(|h: RoundHop| (h.hop_number, opt_text(h.ip)))
}

/// The (hop, address) pairs of a round that are new: not in `known`, nor
/// earlier in the round, in the order the round lists them.
pub open spec fn fresh_pairs(known: Seq<(u32, Seq<char>)>, hops: Seq<(u32, Option<Seq<char>>)>) -> Seq<
    (u32, Seq<char>),
>
    decreases hops.len(),
{
    if hops.len() == 0 {
        seq![]
    } else {
        let prev = fresh_pairs(known, hops.drop_last());
        match hops.last().1 {
            Some(ip) => if (known + prev).contains((hops.last().0, ip)) {
                prev
            } else {
                prev.push((hops.last().0, ip))
            },
            None => prev,
        }
    }
}

/// The new pairs of a round were not known, none comes twice, and every
/// pair of the round is known afterwards.
pub proof fn lemma_fresh_pairs(known: Seq<(u32, Seq<char>)>, hops: Seq<(u32, Option<Seq<char>>)>)
    ensures
        forall|k: int| 0 <= k < fresh_pairs(known, hops).len() ==> !known.contains(#[trigger] fresh_pairs(known, hops)[k]),
        fresh_pairs(known, hops).no_duplicates(),
        forall|i: int|
            0 <= i < hops.len() && (#[trigger] hops[i]).1 is Some ==> (known + fresh_pairs(known, hops)).contains(
                (hops[i].0, hops[i].1->0),
            ),
    decreases hops.len(),
{
    if hops.len() > 0 {
        let rest = hops.drop_last();
        lemma_fresh_pairs(known, rest);
        let prev = fresh_pairs(known, rest);
        let cur = fresh_pairs(known, hops);
        assert forall|i: int| 0 <= i < hops.len() && (#[trigger] hops[i]).1 is Some implies (known + cur).contains(
            (hops[i].0, hops[i].1->0),
        ) by {
            let p = (hops[i].0, hops[i].1->0);
            if i < hops.len() - 1 {
                assert(rest[i] == hops[i]);
                let j = choose|j: int| 0 <= j < (known + prev).len() && (known + prev)[j] == p;
                if j < known.len() {
                    assert((known + cur)[j] == p);
                } else {
                    assert((known + cur)[j] == p);
                }
            } else {
                if !(known + prev).contains(p) {
                    assert((known + cur)[known.len() + prev.len() as int] == p);
                } else {
                    let j = choose|j: int| 0 <= j < (known + prev).len() && (known + prev)[j] == p;
                    assert((known + cur)[j] == p);
                }
            }
        }
        match hops.last().1 {
            Some(ip) => {
                let p = (hops.last().0, ip);
                if !(known + prev).contains(p) {
                    assert forall|k: int| 0 <= k < cur.len() implies !known.contains(#[trigger] cur[k]) by {
                        if k == prev.len() {
                            if known.contains(p) {
                                let j = choose|j: int| 0 <= j < known.len() && known[j] == p;
                                assert((known + prev)[j] == p);
                            }
                        } else {
                            assert(cur[k] == prev[k]);
                        }
                    }
                    assert forall|a: int, b: int| 0 <= a < cur.len() && 0 <= b < cur.len() && a != b implies cur[a]
                        != cur[b] by {
                        if a == prev.len() {
                            assert((known + prev)[known.len() + b] == prev[b]);
                        } else if b == prev.len() {
                            assert((known + prev)[known.len() + a] == prev[a]);
                        }
                    }
                }
            },
            None => {},
        }
    }
}

/// Across rounds, a pair is reported new at most once: the pairs that a
/// second round reports are none of those that the first round reported.
pub proof fn lemma_pair_reported_once(
    known: Seq<(u32, Seq<char>)>,
    first: Seq<(u32, Option<Seq<char>>)>,
    second: Seq<(u32, Option<Seq<char>>)>,
)
    ensures
        forall|a: int, b: int|
            0 <= a < fresh_pairs(known, first).len() && 0 <= b < fresh_pairs(
                known + fresh_pairs(known, first),
                second,
            ).len() ==> #[trigger] fresh_pairs(known, first)[a] != #[trigger] fresh_pairs(
                known + fresh_pairs(known, first),
                second,
            )[b],
{
    let f1 = fresh_pairs(known, first);
    let k1 = known + f1;
    lemma_fresh_pairs(k1, second);
    assert forall|a: int, b: int| 0 <= a < f1.len() && 0 <= b < fresh_pairs(k1, second).len() implies #[trigger] f1[a]
        != #[trigger] fresh_pairs(k1, second)[b] by {
        assert(k1[known.len() + a] == f1[a]);
    }
}

/// The state of a continuous trace: the number of the current round and the
/// (hop, address) pairs seen so far, in the order they first appeared, and
/// whether a round has found the path yet.
pub struct ContinuousTrace {
    round_seq: u32,
    known: Vec<(u32, String)>,
    discovered: bool,
}

/// What to report after a round of a continuous trace.
#[derive(Debug)]
pub enum RoundStep {
    /// The first round found no hop: report that no path was found, and stop.
    NoPath,
    /// A later round found no hop: report nothing and go on.
    Skip,
    /// Report each hop of the round with this round number, then the path:
    /// as the discovered path when `first`, else as an update; then look up
    /// the new (hop, address) pairs, in order.
    Report { round_seq: u32, first: bool, new_pairs: Vec<(u32, String)> },
}

impl ContinuousTrace {
    /// The current round's number.
    pub closed spec fn spec_round(&self) -> u32 {
        self.round_seq
    }

    /// The pairs seen so far.
    pub closed spec fn known_pairs(&self) -> Seq<(u32, Seq<char>)> {
        pair_views(self.known@)
    }

    /// Whether a round has found the path.
    pub closed spec fn spec_discovered(&self) -> bool {
        self.discovered
    }

    /// A trace about to record its first round (number 1), with nothing
    /// seen.
    pub fn new() -> (r: ContinuousTrace)
        ensures
            r.spec_round() == 1,
            r.known_pairs() == Seq::<(u32, Seq<char>)>::empty(),
            !r.spec_discovered(),
    {
        let r = ContinuousTrace { round_seq: 1, known: Vec::new(), discovered: false };
        assert(pair_views(r.known@) =~= Seq::<(u32, Seq<char>)>::empty());
        r
    }

    /// The current round's number.
    pub fn round_seq(&self) -> (r: u32)
        ensures
            r == self.spec_round(),
    {
        self.round_seq
    }

    /// Starts the next round: its number is one more, wrapping after
    /// `u32::MAX` to 0.
    pub fn begin_round(&mut self) -> (r: u32)
        ensures
            r == final(self).spec_round(),
            r == (if old(self).spec_round() == u32::MAX {
                0
            } else {
                old(self).spec_round() + 1
            }),
            final(self).known_pairs() == old(self).known_pairs(),
            final(self).spec_discovered() == old(self).spec_discovered(),
    {
        self.round_seq = if self.round_seq == u32::MAX {
            0
        } else {
            self.round_seq + 1
        };
        self.round_seq
    }

    /// Whether (hop, ip) was seen.
    fn knows(&self, hop: u32, ip: &String) -> (r: bool)
        ensures
            r == self.known_pairs().contains((hop, ip@)),
    {
        let ghost kv = pair_views(self.known@);
        let mut k: usize = 0;
        while k < self.known.len()
            invariant
                kv == pair_views(self.known@),
                k <= self.known@.len(),
                forall|j: int| 0 <= j < k ==> #[trigger] kv[j] != (hop, ip@),
            decreases self.known@.len() - k,
        {
            if self.known[k].0 == hop && self.known[k].1 == *ip {
                assert(kv[k as int] == (hop, ip@));
                return true;
            }
            k = k + 1;
        }
        false
    }

    /// Records the hops of a round. A round without hops is skipped: `None`,
    /// nothing changes. Otherwise the round's new (hop, address) pairs, in
    /// order, which are added to those seen.
    pub fn record_round(&mut self, hops: &Vec<RoundHop>) -> (r: Option<Vec<(u32, String)>>)
        ensures
            final(self).spec_round() == old(self).spec_round(),
            final(self).spec_discovered() == old(self).spec_discovered(),
            hops@.len() == 0 ==> r is None && final(self).known_pairs() == old(self).known_pairs(),
            hops@.len() > 0 ==> (r matches Some(v) && pair_views(v@) == fresh_pairs(
                old(self).known_pairs(),
                round_view(hops@),
            ) && final(self).known_pairs() == old(self).known_pairs() + pair_views(v@)),
    {
        if hops.len() == 0 {
            return None;
        }
        let ghost k0 = self.known_pairs();
        let ghost rv = round_view(hops@);
        let mut out: Vec<(u32, String)> = Vec::new();
        let mut i: usize = 0;
        assert(pair_views(out@) =~= seq![]);
        assert(k0 + seq![] =~= k0);
        while i < hops.len()
            invariant
                rv == round_view(hops@),
                i <= hops@.len(),
                self.round_seq == old(self).round_seq,
                self.discovered == old(self).discovered,
                k0 == old(self).known_pairs(),
                pair_views(out@) == fresh_pairs(k0, rv.take(i as int)),
                self.known_pairs() == k0 + pair_views(out@),
            decreases hops@.len() - i,
        {
            assert(rv.take(i + 1).drop_last() =~= rv.take(i as int));
            assert(rv[i as int] == (hops@[i as int].hop_number, opt_text(hops@[i as int].ip)));
            match &hops[i].ip {
                Some(ip) => {
                    let hop = hops[i].hop_number;
                    if !self.knows(hop, ip) {
                        let ghost ko = self.known@;
                        let ghost oo = out@;
                        self.known.push((hop, ip.clone()));
                        out.push((hop, ip.clone()));
                        assert(pair_views(self.known@) =~= pair_views(ko).push((hop, ip@)));
                        assert(pair_views(out@) =~= pair_views(oo).push((hop, ip@)));
                        assert(k0 + pair_views(out@) =~= (k0 + pair_views(oo)).push((hop, ip@)));
                    }
                },
                None => {},
            }
            i = i + 1;
        }
        assert(rv.take(i as int) =~= rv);
        Some(out)
    }

    /// Decides what a round reports, from its hops. Without hops: the first
    /// path discovery fails (`NoPath`), a later round is skipped (`Skip`),
    /// and nothing changes. With hops: a report with the current round
    /// number, marked first exactly when no round found the path before,
    /// with the round's new pairs, which are added to those seen; the path
    /// is found from then on.
    pub fn on_round(&mut self, hops: &Vec<RoundHop>) -> (r: RoundStep)
        ensures
            final(self).spec_round() == old(self).spec_round(),
            hops@.len() == 0 ==> final(self).known_pairs() == old(self).known_pairs() && final(self).spec_discovered()
                == old(self).spec_discovered() && (if old(self).spec_discovered() {
                r is Skip
            } else {
                r is NoPath
            }),
            hops@.len() > 0 ==> final(self).spec_discovered() && (r matches RoundStep::Report {
                round_seq,
                first,
                new_pairs,
            } && round_seq == old(self).spec_round() && first == !old(self).spec_discovered() && pair_views(
                new_pairs@,
            ) == fresh_pairs(old(self).known_pairs(), round_view(hops@)) && final(self).known_pairs()
                == old(self).known_pairs() + pair_views(new_pairs@)),
    {
        match self.record_round(hops) {
            None => {
                if self.discovered {
                    RoundStep::Skip
                } else {
                    RoundStep::NoPath
                }
            },
            Some(new_pairs) => {
                let first = !self.discovered;
                self.discovered = true;
                RoundStep::Report { round_seq: self.round_seq, first, new_pairs }
            },
        }
    }
}

/// For rounds with `sizes` hops, in order, starting with `discovered`: the
/// `first` mark of each round's report as `on_round` gives it, or `None`
/// for a round without hops (no report).
pub open spec fn report_marks(discovered: bool, sizes: Seq<nat>) -> Seq<Option<bool>>
    decreases sizes.len(),
{
    if sizes.len() == 0 {
        seq![]
    } else if sizes[0] == 0 {
        seq![None::<bool>] + report_marks(discovered, sizes.drop_first())
    } else {
        seq![Some(!discovered)] + report_marks(true, sizes.drop_first())
    }
}

/// In a run, a report marked as the discovered path is followed only by
/// reports marked as updates: the path is discovered once, before any
/// update.
pub proof fn lemma_discovered_before_updates(discovered: bool, sizes: Seq<nat>)
    ensures
        report_marks(discovered, sizes).len() == sizes.len(),
        forall|i: int, j: int|
            0 <= i < j < sizes.len() && #[trigger] report_marks(discovered, sizes)[i] is Some
                && #[trigger] report_marks(discovered, sizes)[j] is Some ==> report_marks(discovered, sizes)[j]
                == Some(false),
        discovered ==> forall|j: int|
            0 <= j < sizes.len() && #[trigger] report_marks(discovered, sizes)[j] is Some ==> report_marks(
                discovered,
                sizes,
            )[j] == Some(false),
    decreases sizes.len(),
{
    if sizes.len() > 0 {
        let m = report_marks(discovered, sizes);
        let rest = sizes.drop_first();
        if sizes[0] == 0 {
            lemma_discovered_before_updates(discovered, rest);
            assert forall|i: int, j: int| 0 <= i < j < sizes.len() && #[trigger] m[i] is Some && #[trigger] m[j] is Some
                implies m[j] == Some(false) by {
                assert(m[i] == report_marks(discovered, rest)[i - 1]);
                assert(m[j] == report_marks(discovered, rest)[j - 1]);
            }
            assert forall|j: int| discovered && 0 <= j < sizes.len() && #[trigger] m[j] is Some implies m[j] == Some(
                false,
            ) by {
                assert(m[j] == report_marks(discovered, rest)[j - 1]);
            }
        } else {
            lemma_discovered_before_updates(true, rest);
            assert forall|i: int, j: int| 0 <= i < j < sizes.len() && #[trigger] m[i] is Some && #[trigger] m[j] is Some
                implies m[j] == Some(false) by {
                assert(m[j] == report_marks(true, rest)[j - 1]);
            }
            assert forall|j: int| discovered && 0 <= j < sizes.len() && #[trigger] m[j] is Some implies m[j] == Some(
                false,
            ) by {
                if j > 0 {
                    assert(m[j] == report_marks(true, rest)[j - 1]);
                }
            }
        }
    }
}

/// The number of the round after `k` calls of `begin_round` on a new
/// trace.
pub open spec fn round_after(k: nat) -> u32
    decreases k,
{
    if k == 0 {
        1
    } else {
        let p = round_after((k - 1) as nat);
        if p == u32::MAX {
            0
        } else {
            (p + 1) as u32
        }
    }
}

/// Before the numbers wrap, round `k` (counted from 0) has the number
/// `k + 1`, so later rounds have larger numbers.
pub proof fn lemma_round_after(k: nat)
    requires
        k < u32::MAX,
    ensures
        round_after(k) == k + 1,
    decreases k,
{
    if k > 0 {
        lemma_round_after((k - 1) as nat);
    }
}

/// The number of hops of each round.
pub open spec fn round_sizes(rounds: Seq<Seq<(u32, Option<Seq<char>>)>>) -> Seq<nat> {
    rounds.map_values(|r: Seq<(u32, Option<Seq<char>>)>| r.len())
}

/// A whole continuous trace, its rounds found in order by a new trace (each
/// after the first preceded by `begin_round`, each decided by `on_round`):
/// only a report of a round with hops is made; the first report is the
/// discovered path and every later one an update; round `k` reports the
/// number `k + 1` (before the numbers wrap), so the updates' numbers rise;
/// and no (hop, address) pair is looked up twice.
pub proof fn lemma_continuous_run(rounds: Seq<Seq<(u32, Option<Seq<char>>)>>)
    ensures
        ({
            let marks = report_marks(false, round_sizes(rounds));
            &&& marks.len() == rounds.len()
            &&& forall|k: int| 0 <= k < rounds.len() ==> ((#[trigger] marks[k]) is Some <==> rounds[k].len() > 0)
            &&& forall|i: int, j: int|
                0 <= i < j < rounds.len() && #[trigger] marks[i] is Some && #[trigger] marks[j] is Some
                    ==> marks[j] == Some(false)
            &&& forall|i: int|
                0 <= i < rounds.len() && #[trigger] marks[i] is Some && (forall|j: int| 0 <= j < i ==> marks[j] is None)
                    ==> marks[i] == Some(true)
        }),
        forall|k: nat, l: nat| k < l < u32::MAX ==> #[trigger] round_after(k) < #[trigger] round_after(l),
        run_fresh(Seq::<(u32, Seq<char>)>::empty(), rounds).no_duplicates(),
{
    let sizes = round_sizes(rounds);
    lemma_discovered_before_updates(false, sizes);
    lemma_marks_present(false, sizes);
    lemma_first_mark(false, sizes);
    assert forall|k: nat, l: nat| k < l < u32::MAX implies #[trigger] round_after(k) < #[trigger] round_after(l) by {
        lemma_round_after(k);
        lemma_round_after(l);
    }
    lemma_run_reports_each_pair_once(Seq::<(u32, Seq<char>)>::empty(), rounds);
}

/// A round is reported exactly when it has hops.
proof fn lemma_marks_present(discovered: bool, sizes: Seq<nat>)
    ensures
        report_marks(discovered, sizes).len() == sizes.len(),
        forall|k: int|
            0 <= k < sizes.len() ==> ((#[trigger] report_marks(discovered, sizes)[k]) is Some <==> sizes[k] > 0),
    decreases sizes.len(),
{
    if sizes.len() > 0 {
        let next = if sizes[0] == 0 { discovered } else { true };
        lemma_marks_present(next, sizes.drop_first());
        assert forall|k: int| 0 <= k < sizes.len() implies ((#[trigger] report_marks(discovered, sizes)[k]) is Some
            <==> sizes[k] > 0) by {
            if k > 0 {
                assert(report_marks(discovered, sizes)[k] == report_marks(next, sizes.drop_first())[k - 1]);
            }
        }
    }
}

/// Starting undiscovered, the first report is marked as the discovered path.
#[verifier::rlimit(30)]
proof fn lemma_first_mark(discovered: bool, sizes: Seq<nat>)
    ensures
        forall|i: int|
            0 <= i < sizes.len() && !discovered && #[trigger] report_marks(discovered, sizes)[i] is Some && (forall|
                j: int,
            | 0 <= j < i ==> report_marks(discovered, sizes)[j] is None) ==> report_marks(discovered, sizes)[i]
                == Some(true),
    decreases sizes.len(),
{
    if sizes.len() > 0 {
        let m = report_marks(discovered, sizes);
        let rest = sizes.drop_first();
        lemma_first_mark(discovered, rest);
        lemma_marks_present(discovered, rest);
        assert forall|i: int|
            0 <= i < sizes.len() && !discovered && #[trigger] m[i] is Some && (forall|j: int| 0 <= j < i ==> m[j] is None)
            implies m[i] == Some(true) by {
            if i > 0 {
                assert(m[0] is None);
                assert(sizes[0] == 0);
                assert(m == seq![None::<bool>] + report_marks(discovered, rest));
                assert(m[i] == report_marks(discovered, rest)[i - 1]);
                assert forall|j: int| 0 <= j < i - 1 implies report_marks(discovered, rest)[j] is None by {
                    assert(m[j + 1] == report_marks(discovered, rest)[j]);
                }
            }
        }
    }
}

/// The new pairs that a run of rounds reports, round after round, starting
/// with the pairs `known`.
pub open spec fn run_fresh(known: Seq<(u32, Seq<char>)>, rounds: Seq<Seq<(u32, Option<Seq<char>>)>>) -> Seq<
    (u32, Seq<char>),
>
    decreases rounds.len(),
{
    if rounds.len() == 0 {
        seq![]
    } else {
        let f = fresh_pairs(known, rounds[0]);
        f + run_fresh(known + f, rounds.drop_first())
    }
}

/// Over any number of rounds, each (hop, address) pair is reported new at
/// most once, and never one that was known at the start.
pub proof fn lemma_run_reports_each_pair_once(
    known: Seq<(u32, Seq<char>)>,
    rounds: Seq<Seq<(u32, Option<Seq<char>>)>>,
)
    ensures
        run_fresh(known, rounds).no_duplicates(),
        forall|k: int| 0 <= k < run_fresh(known, rounds).len() ==> !known.contains(#[trigger] run_fresh(known, rounds)[k]),
    decreases rounds.len(),
{
    if rounds.len() > 0 {
        let f = fresh_pairs(known, rounds[0]);
        let k1 = known + f;
        let rest = run_fresh(k1, rounds.drop_first());
        let all = run_fresh(known, rounds);
        lemma_fresh_pairs(known, rounds[0]);
        lemma_run_reports_each_pair_once(k1, rounds.drop_first());
        assert(all == f + rest);
        assert forall|k: int| 0 <= k < all.len() implies !known.contains(#[trigger] all[k]) by {
            if k >= f.len() {
                assert(all[k] == rest[k - f.len()]);
                if known.contains(all[k]) {
                    let j = choose|j: int| 0 <= j < known.len() && known[j] == all[k];
                    assert(k1[j] == all[k]);
                }
            }
        }
        assert forall|a: int, b: int| 0 <= a < all.len() && 0 <= b < all.len() && a != b implies all[a]
            != all[b] by {
            if a < f.len() && b >= f.len() {
                assert(k1[known.len() + a] == f[a]);
                assert(all[b] == rest[b - f.len()]);
            } else if b < f.len() && a >= f.len() {
                assert(k1[known.len() + b] == f[b]);
                assert(all[a] == rest[a - f.len()]);
            } else if a >= f.len() && b >= f.len() {
                assert(all[a] == rest[a - f.len()]);
                assert(all[b] == rest[b - f.len()]);
            }
        }
    }
}

} // verus!
