//! The local network configuration, read from what system tools print:
//! name servers, the default gateway, interface addresses, and host names
//! from reverse lookups.
use vstd::prelude::*;

use crate::ip::{is_ip_literal, is_valid_ip};
use crate::models::NetworkInterface;
use crate::text::{
    lines_of, split_whitespace, string_views, text_lines, trim, trimmed, words,
};

verus! {

/// `s` begins with `p`.
pub open spec fn starts_with(s: Seq<char>, p: Seq<char>) -> bool {
    s.len() >= p.len() && s.take(p.len() as int) == p
}

/// Whether `s` begins with `p`.
pub fn text_starts_with(s: &str, p: &str) -> (r: bool)
    ensures
        r == starts_with(s@, p@),
{
    let n = p.unicode_len();
    if s.unicode_len() < n {
        return false;
    }
    let mut i: usize = 0;
    while i < n
        invariant
            n == p@.len() <= s@.len(),
            i <= n,
            forall|k: int| 0 <= k < i ==> s@[k] == p@[k],
        decreases n - i,
    {
        if s.get_char(i) != p.get_char(i) {
            assert(s@.take(n as int)[i as int] != p@[i as int]);
            return false;
        }
        i = i + 1;
    }
    assert(s@.take(n as int) =~= p@);
    true
}

/// `s` without runs of equal neighbours: an element is kept when it differs
/// from the one before it (what `Vec::dedup` leaves).
pub open spec fn dedup_runs(s: Seq<Seq<char>>) -> Seq<Seq<char>>
    decreases s.len(),
{
    if s.len() <= 1 {
        s
    } else if s.last() == s[s.len() - 2] {
        dedup_runs(s.drop_last())
    } else {
        dedup_runs(s.drop_last()).push(s.last())
    }
}

/// The name servers that the lines of a resolver configuration name: for
/// each line that begins with `nameserver`, its second word when it has one.
pub open spec fn nameserver_entries(lines: Seq<Seq<char>>) -> Seq<Seq<char>>
    decreases lines.len(),
{
    if lines.len() == 0 {
        seq![]
    } else {
        let prev = nameserver_entries(lines.drop_last());
        let l = lines.last();
        if starts_with(l, "nameserver"@) && words(l).len() >= 2 {
            prev.push(words(l)[1])
        } else {
            prev
        }
    }
}

/// The lines of a listing that are not blank, trimmed.
pub open spec fn listed_entries(lines: Seq<Seq<char>>) -> Seq<Seq<char>>
    decreases lines.len(),
{
    if lines.len() == 0 {
        seq![]
    } else {
        let prev = listed_entries(lines.drop_last());
        if trim(lines.last()).len() > 0 {
            prev.push(trim(lines.last()))
        } else {
            prev
        }
    }
}

/// Removes runs of equal neighbours.
fn dedup_strings(v: Vec<String>) -> (r: Vec<String>)
    ensures
        string_views(r@) == dedup_runs(string_views(v@)),
{
    let ghost vv = string_views(v@);
    let mut out: Vec<String> = Vec::new();
    let mut i: usize = 0;
    assert(vv.take(0) =~= seq![]);
    assert(string_views(out@) =~= seq![]);
    while i < v.len()
        invariant
            vv == string_views(v@),
            i <= v@.len(),
            string_views(out@) == dedup_runs(vv.take(i as int)),
            i > 0 ==> out@.len() > 0 && out@.last()@ == vv[i - 1],
        decreases v@.len() - i,
    {
        assert(vv.take(i + 1).drop_last() =~= vv.take(i as int));
        assert(vv[i as int] == v@[i as int]@);
        if i > 0 {
            assert(vv.take(i + 1)[i - 1] == vv[i - 1]);
        }
        let same = i > 0 && out[out.len() - 1] == v[i];
        if !same {
            let ghost before = string_views(out@);
            out.push(v[i].clone());
            assert(string_views(out@) =~= before.push(vv[i as int]));
        }
        proof {
            if i > 0 {
                lemma_dedup_last(vv.take(i + 1));
            }
        }
        i = i + 1;
    }
    assert(vv.take(i as int) =~= vv);
    out
}

/// The last element survives the removal of runs.
proof fn lemma_dedup_last(s: Seq<Seq<char>>)
    requires
        s.len() > 0,
    ensures
        dedup_runs(s).len() > 0,
        dedup_runs(s).last() == s.last(),
    decreases s.len(),
{
    if s.len() > 1 && s.last() == s[s.len() - 2] {
        lemma_dedup_last(s.drop_last());
    }
}

/// The name servers of a resolver configuration (`/etc/resolv.conf`), with
/// runs of the same server kept once.
pub fn nameservers_from_resolv_conf(content: &str) -> (r: Vec<String>)
    ensures
        string_views(r@) == dedup_runs(nameserver_entries(lines_of(content@))),
{
    let lines = text_lines(content);
    let ghost lv = string_views(lines@);
    let mut found: Vec<String> = Vec::new();
    let mut i: usize = 0;
    assert(lv.take(0) =~= seq![]);
    assert(string_views(found@) =~= seq![]);
    while i < lines.len()
        invariant
            lv == string_views(lines@),
            lv == lines_of(content@),
            i <= lines@.len(),
            string_views(found@) == nameserver_entries(lv.take(i as int)),
        decreases lines@.len() - i,
    {
        assert(lv.take(i + 1).drop_last() =~= lv.take(i as int));
        assert(lv[i as int] == lines@[i as int]@);
        let line = lines[i].as_str();
        if text_starts_with(line, "nameserver") {
            let ws = split_whitespace(line);
            if ws.len() >= 2 {
                assert(string_views(ws@)[1] == ws@[1]@);
                let ghost before = string_views(found@);
                found.push(ws[1].clone());
                assert(string_views(found@) =~= before.push(words(lv[i as int])[1]));
            }
        }
        i = i + 1;
    }
    assert(lv.take(i as int) =~= lv);
    dedup_strings(found)
}

/// The name servers of a listing with one server per line (as PowerShell
/// prints them), trimmed, without blank lines, with runs of the same server
/// kept once.
pub fn nameservers_from_listing(text: &str) -> (r: Vec<String>)
    ensures
        string_views(r@) == dedup_runs(listed_entries(lines_of(text@))),
{
    let lines = text_lines(text);
    let ghost lv = string_views(lines@);
    let mut found: Vec<String> = Vec::new();
    let mut i: usize = 0;
    assert(lv.take(0) =~= seq![]);
    assert(string_views(found@) =~= seq![]);
    while i < lines.len()
        invariant
            lv == string_views(lines@),
            lv == lines_of(text@),
            i <= lines@.len(),
            string_views(found@) == listed_entries(lv.take(i as int)),
        decreases lines@.len() - i,
    {
        assert(lv.take(i + 1).drop_last() =~= lv.take(i as int));
        assert(lv[i as int] == lines@[i as int]@);
        let t = trimmed(lines[i].as_str());
        if t.unicode_len() > 0 {
            let ghost before = string_views(found@);
            found.push(t);
            assert(string_views(found@) =~= before.push(trim(lv[i as int])));
        }
        i = i + 1;
    }
    assert(lv.take(i as int) =~= lv);
    dedup_strings(found)
}

/// The first word that is an IP address.
pub open spec fn first_ip_word(ws: Seq<Seq<char>>) -> Option<Seq<char>>
    decreases ws.len(),
{
    if ws.len() == 0 {
        None
    } else if is_ip_literal(ws[0]) {
        Some(ws[0])
    } else {
        first_ip_word(ws.drop_first())
    }
}

/// The default gateway in the output of `ip route show default`
/// (`default via 192.168.1.1 dev eth0`): its first word that is an address.
pub fn gateway_from_route(text: &str) -> (r: Option<String>)
    ensures
        opt_string_view(r) == first_ip_word(words(text@)),
{
    let ws = split_whitespace(text);
    let ghost wv = string_views(ws@);
    let mut i: usize = 0;
    assert(wv.skip(0) =~= wv);
    while i < ws.len()
        invariant
            wv == string_views(ws@),
            wv == words(text@),
            i <= ws@.len(),
            first_ip_word(wv) == first_ip_word(wv.skip(i as int)),
        decreases ws@.len() - i,
    {
        assert(wv.skip(i as int)[0] == ws@[i as int]@);
        assert(wv.skip(i as int).drop_first() =~= wv.skip(i + 1));
        if is_valid_ip(ws[i].as_str()) {
            return Some(ws[i].clone());
        }
        i = i + 1;
    }
    None
}

/// The text of an optional string.
pub open spec fn opt_string_view(o: Option<String>) -> Option<Seq<char>> {
    match o {
        Some(s) => Some(s@),
        None => None,
    }
}

/// The default gateway printed alone (as PowerShell prints it): the trimmed
/// text, when not blank.
pub fn gateway_from_text(text: &str) -> (r: Option<String>)
    ensures
        opt_string_view(r) == (if trim(text@).len() > 0 {
            Some(trim(text@))
        } else {
            None
        }),
{
    let t = trimmed(text);
    if t.unicode_len() > 0 {
        Some(t)
    } else {
        None
    }
}

/// An interface address worth listing: not empty and not a loopback
/// address (`127.` prefix).
pub open spec fn listed_interface_ip(ip: Seq<char>) -> bool {
    ip.len() > 0 && !starts_with(ip, "127."@)
}

/// The interfaces worth listing: for each interface name and each of its
/// IPv4 addresses, in order, the ones `listed_interface_ip` keeps.
pub open spec fn interface_entries(ifaces: Seq<(Seq<char>, Seq<Seq<char>>)>) -> Seq<(Seq<char>, Seq<char>)>
    decreases ifaces.len(),
{
    if ifaces.len() == 0 {
        seq![]
    } else {
        interface_entries(ifaces.drop_last()) + kept_addresses(ifaces.last().0, ifaces.last().1)
    }
}

/// The addresses of one interface that are kept, with its name.
pub open spec fn kept_addresses(name: Seq<char>, ips: Seq<Seq<char>>) -> Seq<(Seq<char>, Seq<char>)>
    decreases ips.len(),
{
    if ips.len() == 0 {
        seq![]
    } else if listed_interface_ip(ips.last()) {
        kept_addresses(name, ips.drop_last()).push((name, ips.last()))
    } else {
        kept_addresses(name, ips.drop_last())
    }
}

/// An interface entry as texts: name and address; its type is always IPv4.
pub open spec fn interface_view(i: NetworkInterface) -> (Seq<char>, Seq<char>) {
    (i.name@, i.ip@)
}

/// The interface names and their address lists, as texts.
pub open spec fn ifaces_view(v: Seq<(String, Vec<String>)>) -> Seq<(Seq<char>, Seq<Seq<char>>)> {
    v.map_values(|e: (String, Vec<String>)| (e.0@, string_views(e.1@)))
}

/// The IPv4 interfaces worth listing, from each interface's name and
/// addresses.
pub fn interfaces_from(ifaces: &Vec<(String, Vec<String>)>) -> (r: Vec<NetworkInterface>)
    ensures
        r@.map_values(|i: NetworkInterface| interface_view(i)) == interface_entries(ifaces_view(ifaces@)),
        forall|k: int| 0 <= k < r@.len() ==> (#[trigger] r@[k]).interface_type@ == "IPv4"@,
{
    let ghost iv = ifaces_view(ifaces@);
    let mut out: Vec<NetworkInterface> = Vec::new();
    let mut i: usize = 0;
    assert(iv.take(0) =~= seq![]);
    assert(out@.map_values(|i: NetworkInterface| interface_view(i)) =~= seq![]);
    while i < ifaces.len()
        invariant
            iv == ifaces_view(ifaces@),
            i <= ifaces@.len(),
            out@.map_values(|i: NetworkInterface| interface_view(i)) == interface_entries(iv.take(i as int)),
            forall|k: int| 0 <= k < out@.len() ==> (#[trigger] out@[k]).interface_type@ == "IPv4"@,
        decreases ifaces@.len() - i,
    {
        assert(iv.take(i + 1).drop_last() =~= iv.take(i as int));
        assert(iv[i as int] == (ifaces@[i as int].0@, string_views(ifaces@[i as int].1@)));
        let name = &ifaces[i].0;
        let ips = &ifaces[i].1;
        let ghost ipv = string_views(ips@);
        let ghost base = out@.map_values(|i: NetworkInterface| interface_view(i));
        let mut j: usize = 0;
        assert(ipv.take(0) =~= seq![]);
        assert(base + kept_addresses(name@, ipv.take(0)) =~= base);
        while j < ips.len()
            invariant
                ipv == string_views(ips@),
                j <= ips@.len(),
                out@.map_values(|i: NetworkInterface| interface_view(i)) == base + kept_addresses(
                    name@,
                    ipv.take(j as int),
                ),
                forall|k: int| 0 <= k < out@.len() ==> (#[trigger] out@[k]).interface_type@ == "IPv4"@,
            decreases ips@.len() - j,
        {
            assert(ipv.take(j + 1).drop_last() =~= ipv.take(j as int));
            assert(ipv[j as int] == ips@[j as int]@);
            let ip = ips[j].as_str();
            if ip.unicode_len() > 0 && !text_starts_with(ip, "127.") {
                let ghost before = out@.map_values(|i: NetworkInterface| interface_view(i));
                out.push(NetworkInterface { name: name.clone(), ip: ips[j].clone(), interface_type: String::from_str("IPv4") });
                assert(out@.map_values(|i: NetworkInterface| interface_view(i)) =~= before.push((name@, ipv[j as int])));
            }
            j = j + 1;
        }
        assert(ipv.take(j as int) =~= ipv);
        i = i + 1;
    }
    assert(iv.take(i as int) =~= iv);
    out
}

/// The host name of a reverse lookup's first answer: the name without one
/// trailing dot, when something is left.
pub open spec fn ptr_host_name(name: Seq<char>) -> Option<Seq<char>> {
    let n = if name.len() > 0 && name.last() == '.' {
        name.drop_last()
    } else {
        name
    };
    if n.len() > 0 {
        Some(n)
    } else {
        None
    }
}

/// The host name that a reverse lookup's first answer gives.
pub fn host_name_from_ptr(name: &str) -> (r: Option<String>)
    ensures
        opt_string_view(r) == ptr_host_name(name@),
{
    let n = name.unicode_len();
    let end = if n > 0 && name.get_char(n - 1) == '.' {
        n - 1
    } else {
        n
    };
    if end == 0 {
        return None;
    }
    let s = name.substring_char(0, end).to_owned();
    assert(s@ =~= (if n > 0 && name@.last() == '.' {
        name@.drop_last()
    } else {
        name@
    }));
    Some(s)
}

} // verus!
