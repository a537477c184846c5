//! The command lines of the system tools used as fallbacks: `tracert`,
//! `traceroute`, `tracetcp` and `ping`.
use vstd::prelude::*;

use crate::models::ProbeMethod;
use crate::target::{parse_target_with_port, split_target};
use crate::text::{dec_digits, decimal_text};

verus! {

/// A program and its arguments, as texts.
pub open spec fn argv_view(c: (String, Vec<String>)) -> (Seq<char>, Seq<Seq<char>>) {
    (c.0@, c.1@.map_values(|a: String| a@))
}

/// The texts of a list of strings.
pub open spec fn texts(v: Seq<String>) -> Seq<Seq<char>> {
    v.map_values(|a: String| a@)
}

fn push_text(v: &mut Vec<String>, s: &str)
    ensures
        texts(final(v)@) == texts(old(v)@).push(s@),
{
    let ghost before = texts(v@);
    v.push(String::from_str(s));
    assert(texts(v@) =~= before.push(s@));
}

fn push_number(v: &mut Vec<String>, n: u64)
    ensures
        texts(final(v)@) == texts(old(v)@).push(dec_digits(n as nat)),
{
    let ghost before = texts(v@);
    v.push(decimal_text(n));
    assert(texts(v@) =~= before.push(dec_digits(n as nat)));
}

/// The `tracert` command line of Windows: numeric output, at most
/// `max_hops` hops, `timeout_ms` per reply.
pub open spec fn tracert_argv(target: Seq<char>, max_hops: u32, timeout_ms: u32) -> (Seq<char>, Seq<Seq<char>>) {
    (
        "tracert"@,
        seq!["-d"@, "-h"@, dec_digits(max_hops as nat), "-w"@, dec_digits(timeout_ms as nat), target],
    )
}

/// The `traceroute` command line of Unix systems with the probe flag
/// `flag`: numeric output, at most `max_hops` hops, the timeout in whole
/// seconds.
pub open spec fn traceroute_argv(flag: Seq<char>, target: Seq<char>, max_hops: u32, timeout_ms: u32) -> (
    Seq<char>,
    Seq<Seq<char>>,
) {
    (
        "traceroute"@,
        seq![flag, "-n"@, "-m"@, dec_digits(max_hops as nat), "-w"@, dec_digits((timeout_ms / 1000) as nat), target],
    )
}

fn tracert(target: &str, max_hops: u32, timeout_ms: u32) -> (r: (String, Vec<String>))
    ensures
        argv_view(r) == tracert_argv(target@, max_hops, timeout_ms),
{
    let mut a: Vec<String> = Vec::new();
    assert(texts(a@) =~= seq![]);
    push_text(&mut a, "-d");
    push_text(&mut a, "-h");
    push_number(&mut a, max_hops as u64);
    push_text(&mut a, "-w");
    push_number(&mut a, timeout_ms as u64);
    push_text(&mut a, target);
    let r = (String::from_str("tracert"), a);
    assert(argv_view(r).1 =~= tracert_argv(target@, max_hops, timeout_ms).1);
    r
}

fn traceroute(flag: &str, target: &str, max_hops: u32, timeout_ms: u32) -> (r: (String, Vec<String>))
    ensures
        argv_view(r) == traceroute_argv(flag@, target@, max_hops, timeout_ms),
{
    let mut a: Vec<String> = Vec::new();
    assert(texts(a@) =~= seq![]);
    push_text(&mut a, flag);
    push_text(&mut a, "-n");
    push_text(&mut a, "-m");
    push_number(&mut a, max_hops as u64);
    push_text(&mut a, "-w");
    push_number(&mut a, (timeout_ms / 1000) as u64);
    push_text(&mut a, target);
    let r = (String::from_str("traceroute"), a);
    assert(argv_view(r).1 =~= traceroute_argv(flag@, target@, max_hops, timeout_ms).1);
    r
}

/// The command line of an ICMP traceroute: `tracert` on Windows,
/// `traceroute -I` elsewhere.
pub fn icmp_trace_command(windows: bool, target: &str, max_hops: u32, timeout_ms: u32) -> (r: (String, Vec<String>))
    ensures
        argv_view(r) == (if windows {
            tracert_argv(target@, max_hops, timeout_ms)
        } else {
            traceroute_argv("-I"@, target@, max_hops, timeout_ms)
        }),
{
    if windows {
        tracert(target, max_hops, timeout_ms)
    } else {
        traceroute("-I", target, max_hops, timeout_ms)
    }
}

/// The `tracetcp` command line for a TCP traceroute on Windows: the host and
/// port of `target` (443 when it names none), at most `max_hops` hops,
/// `timeout_ms` per probe, numeric output, three probes per hop.
pub open spec fn tracetcp_argv(target: Seq<char>, max_hops: u32, timeout_ms: u32) -> (Seq<char>, Seq<Seq<char>>) {
    let hp = split_target(target, 443);
    (
        "tracetcp"@,
        seq![
            hp.0 + ":"@ + dec_digits(hp.1 as nat),
            "-m"@,
            dec_digits(max_hops as nat),
            "-t"@,
            dec_digits(timeout_ms as nat),
            "-n"@,
            "-p"@,
            "3"@,
        ],
    )
}

/// The command line of the system TCP traceroute: `tracetcp` on Windows,
/// `traceroute -T` elsewhere.
pub fn tcp_trace_command(windows: bool, target: &str, max_hops: u32, timeout_ms: u32) -> (r: (String, Vec<String>))
    ensures
        argv_view(r) == (if windows {
            tracetcp_argv(target@, max_hops, timeout_ms)
        } else {
            traceroute_argv("-T"@, target@, max_hops, timeout_ms)
        }),
{
    if !windows {
        return traceroute("-T", target, max_hops, timeout_ms);
    }
    let (host, port) = parse_target_with_port(target);
    let mut first = host;
    first.append(":");
    first.append(decimal_text(port as u64).as_str());
    let mut a: Vec<String> = Vec::new();
    assert(texts(a@) =~= seq![]);
    let ghost f = first@;
    a.push(first);
    assert(texts(a@) =~= seq![f]);
    push_text(&mut a, "-m");
    push_number(&mut a, max_hops as u64);
    push_text(&mut a, "-t");
    push_number(&mut a, timeout_ms as u64);
    push_text(&mut a, "-n");
    push_text(&mut a, "-p");
    push_text(&mut a, "3");
    let r = (String::from_str("tracetcp"), a);
    assert(argv_view(r).1 =~= tracetcp_argv(target@, max_hops, timeout_ms).1);
    r
}

/// The command line that discovers a path with the system tools for a
/// continuous trace: on Windows `tracetcp` to port 443 for TCP (numeric
/// output, no probe count) and `tracert` otherwise; elsewhere `traceroute`
/// with `-U` for UDP, `-T` for TCP and `-I` otherwise.
pub open spec fn discovery_argv(windows: bool, method: Option<ProbeMethod>, target: Seq<char>, max_hops: u32, timeout_ms: u32) -> (
    Seq<char>,
    Seq<Seq<char>>,
) {
    if windows {
        if method == Some(ProbeMethod::Tcp) {
            (
                "tracetcp"@,
                seq![
                    target + ":443"@,
                    "-m"@,
                    dec_digits(max_hops as nat),
                    "-t"@,
                    dec_digits(timeout_ms as nat),
                    "-n"@,
                ],
            )
        } else {
            tracert_argv(target, max_hops, timeout_ms)
        }
    } else {
        let flag = if method == Some(ProbeMethod::Udp) {
            "-U"@
        } else if method == Some(ProbeMethod::Tcp) {
            "-T"@
        } else {
            "-I"@
        };
        traceroute_argv(flag, target, max_hops, timeout_ms)
    }
}

/// The command line that discovers a path with the system tools.
pub fn discovery_command(windows: bool, method: Option<ProbeMethod>, target: &str, max_hops: u32, timeout_ms: u32) -> (r: (
    String,
    Vec<String>,
))
    ensures
        argv_view(r) == discovery_argv(windows, method, target@, max_hops, timeout_ms),
{
    if windows {
        if method == Some(ProbeMethod::Tcp) {
            let mut first = String::from_str(target);
            first.append(":443");
            let mut a: Vec<String> = Vec::new();
            assert(texts(a@) =~= seq![]);
            let ghost f = first@;
            a.push(first);
            assert(texts(a@) =~= seq![f]);
            push_text(&mut a, "-m");
            push_number(&mut a, max_hops as u64);
            push_text(&mut a, "-t");
            push_number(&mut a, timeout_ms as u64);
            push_text(&mut a, "-n");
            let r = (String::from_str("tracetcp"), a);
            assert(argv_view(r).1 =~= discovery_argv(windows, method, target@, max_hops, timeout_ms).1);
            r
        } else {
            tracert(target, max_hops, timeout_ms)
        }
    } else {
        let flag = if method == Some(ProbeMethod::Udp) {
            "-U"
        } else if method == Some(ProbeMethod::Tcp) {
            "-T"
        } else {
            "-I"
        };
        traceroute(flag, target, max_hops, timeout_ms)
    }
}

/// The `ping` command line for one probe of `packet_size` bytes with a
/// timeout of `timeout_ms` (Windows syntax): the options in the order
/// `-n 1 -w <timeout> -l <size>` for a single ping, `-n 1 -l <size> -w
/// <timeout>` for a ping of a session.
pub open spec fn ping_argv(session: bool, ip: Seq<char>, timeout_ms: u32, packet_size: u32) -> (Seq<char>, Seq<Seq<char>>) {
    if session {
        ("ping"@, seq!["-n"@, "1"@, "-l"@, dec_digits(packet_size as nat), "-w"@, dec_digits(timeout_ms as nat), ip])
    } else {
        ("ping"@, seq!["-n"@, "1"@, "-w"@, dec_digits(timeout_ms as nat), "-l"@, dec_digits(packet_size as nat), ip])
    }
}

/// The `ping` command line for one probe.
pub fn ping_command(session: bool, ip: &str, timeout_ms: u32, packet_size: u32) -> (r: (String, Vec<String>))
    ensures
        argv_view(r) == ping_argv(session, ip@, timeout_ms, packet_size),
{
    let mut a: Vec<String> = Vec::new();
    assert(texts(a@) =~= seq![]);
    push_text(&mut a, "-n");
    push_text(&mut a, "1");
    if session {
        push_text(&mut a, "-l");
        push_number(&mut a, packet_size as u64);
        push_text(&mut a, "-w");
        push_number(&mut a, timeout_ms as u64);
    } else {
        push_text(&mut a, "-w");
        push_number(&mut a, timeout_ms as u64);
        push_text(&mut a, "-l");
        push_number(&mut a, packet_size as u64);
    }
    push_text(&mut a, ip);
    let r = (String::from_str("ping"), a);
    assert(argv_view(r).1 =~= ping_argv(session, ip@, timeout_ms, packet_size).1);
    r
}

} // verus!
