//! Frames read through the packet-capture driver during UDP and TCP
//! traceroutes: the link header, the ICMP messages that name a probe's TTL,
//! the target's own TCP answers, and the choice of the capture device.
//!
//! The IPv4 and ICMP headers are read with `pnet_packet`; what its readers
//! give is stated here as functions of the bytes.
use vstd::prelude::*;

use pnet_packet::icmp::IcmpPacket;
use pnet_packet::ipv4::Ipv4Packet;
use pnet_packet::Packet;

use crate::error::AppError;
use crate::packets::{header_len, word_at, word_of, TCP_BASE_SRC_PORT, UDP_BASE_PORT};
use crate::text::{contains_text, has_infix};

verus! {

/// The link type of Ethernet frames.
pub const LINKTYPE_ETHERNET: i32 = 1;

/// The bytes of the network layer in a captured frame of link type
/// `linktype`: an Ethernet frame (type 1) has a 14-byte header that must
/// announce IPv4 (ethertype 0x0800); raw IPv4 links (types 12 and 228), and
/// any other link type, give the data unchanged.
pub open spec fn link_payload(d: Seq<u8>, linktype: i32) -> Option<Seq<u8>> {
    if linktype != LINKTYPE_ETHERNET {
        Some(d)
    } else if d.len() < 14 {
        None
    } else if word_at(d, 12) != 0x0800 {
        None
    } else {
        Some(d.skip(14))
    }
}

/// The network-layer bytes of a captured frame.
pub fn strip_link_header(data: &[u8], linktype: i32) -> (r: Option<&[u8]>)
    ensures
        match r {
            Some(s) => link_payload(data@, linktype) == Some(s@),
            None => link_payload(data@, linktype) is None,
        },
{
    if linktype != LINKTYPE_ETHERNET {
        return Some(data);
    }
    if data.len() < 14 {
        return None;
    }
    let ethertype = (data[12] as u16) * 256 + (data[13] as u16);
    if ethertype != 0x0800 {
        return None;
    }
    let rest = &data[14..data.len()];
    assert(rest@ =~= data@.skip(14));
    Some(rest)
}

/// The payload of an IPv4 packet as `pnet_packet` delimits it: from the end
/// of the header (at least 20 bytes) for as many bytes as the total length
/// leaves after the header, cut at the end of the data.
pub open spec fn ipv4_payload_of(d: Seq<u8>) -> Seq<u8> {
    let hl = header_len(d[0]);
    let start = if hl > 20 {
        hl
    } else {
        20
    };
    let total = word_at(d, 2);
    let upper = start + if total > hl {
        total - hl
    } else {
        0
    };
    let end = if upper < d.len() {
        upper
    } else {
        d.len() as int
    };
    if d.len() <= start {
        Seq::empty()
    } else {
        d.subrange(start, end)
    }
}

/// The body of an ICMP message after its 4-byte header.
pub open spec fn icmp_payload_of(d: Seq<u8>) -> Seq<u8> {
    if d.len() <= 4 {
        Seq::empty()
    } else {
        d.skip(4)
    }
}

/// The big-endian value of the four bytes at `i`.
pub open spec fn be32_at(d: Seq<u8>, i: int) -> u32 {
    (d[i] as int * 16777216 + d[i + 1] as int * 65536 + d[i + 2] as int * 256 + d[i + 3] as int) as u32
}

/// Reads the protocol number of an IPv4 packet with `Ipv4Packet::new` and
/// `get_next_level_protocol`. Stated: a packet needs 20 bytes, and the
/// protocol is its tenth byte.
#[verifier::external_body]
fn ipv4_protocol(data: &[u8]) -> (r: Option<u8>)
    ensures
        r == (if data@.len() >= 20 {
            Some(data@[9])
        } else {
            None
        }),
{
    Ipv4Packet::new(data).map(|p| p.get_next_level_protocol().0)
}

/// Reads the source address of an IPv4 packet with `Ipv4Packet::new` and
/// `get_source`. Stated: a packet needs 20 bytes, and the source is the
/// big-endian value of bytes 12 to 15.
#[verifier::external_body]
fn ipv4_source(data: &[u8]) -> (r: Option<u32>)
    ensures
        r == (if data@.len() >= 20 {
            Some(be32_at(data@, 12))
        } else {
            None
        }),
{
    Ipv4Packet::new(data).map(|p| u32::from_be_bytes(p.get_source().octets()))
}

/// Reads the payload of an IPv4 packet with `Ipv4Packet::new` and
/// `payload`. Stated: a packet needs 20 bytes, and its payload is
/// `ipv4_payload_of`.
#[verifier::external_body]
fn ipv4_payload(data: &[u8]) -> (r: Option<Vec<u8>>)
    ensures
        match r {
            Some(v) => data@.len() >= 20 && v@ == ipv4_payload_of(data@),
            None => data@.len() < 20,
        },
{
    Ipv4Packet::new(data).map(|p| p.payload().to_vec())
}

/// Reads the type of an ICMP message with `IcmpPacket::new` and
/// `get_icmp_type`. Stated: a message needs 4 bytes, and the type is the
/// first.
#[verifier::external_body]
fn message_type(data: &[u8]) -> (r: Option<u8>)
    ensures
        r == (if data@.len() >= 4 {
            Some(data@[0])
        } else {
            None
        }),
{
    IcmpPacket::new(data).map(|p| p.get_icmp_type().0)
}

/// Reads the body of an ICMP message with `IcmpPacket::new` and `payload`.
/// Stated: a message needs 4 bytes, and the body is `icmp_payload_of`.
#[verifier::external_body]
fn message_body(data: &[u8]) -> (r: Option<Vec<u8>>)
    ensures
        match r {
            Some(v) => data@.len() >= 4 && v@ == icmp_payload_of(data@),
            None => data@.len() < 4,
        },
{
    IcmpPacket::new(data).map(|p| p.payload().to_vec())
}

/// The quoted IPv4 packet of a Time Exceeded (11) or Destination
/// Unreachable (3) message in a captured frame, with the address of the
/// router that sent it; the body must hold the 4 unused bytes and at least
/// `min_quote` bytes of the quoted packet.
pub open spec fn captured_quote(d: Seq<u8>, linktype: i32, min_quote: int) -> Option<(u32, Seq<u8>)> {
    match link_payload(d, linktype) {
        None => None,
        Some(ip) => if ip.len() < 20 || ip[9] != 1 {
            None
        } else {
            let msg = ipv4_payload_of(ip);
            if msg.len() < 4 || (msg[0] != 11 && msg[0] != 3) {
                None
            } else {
                let body = icmp_payload_of(msg);
                if body.len() < 4 + min_quote {
                    None
                } else {
                    Some((be32_at(ip, 12), body.skip(4)))
                }
            }
        },
    }
}

/// The router and probe TTL of a captured ICMP message about a UDP probe:
/// the quoted packet carries UDP (17) whose destination port, less 33434,
/// taken modulo 256, is a TTL from 1 to 64.
pub open spec fn captured_udp_attribution(d: Seq<u8>, linktype: i32) -> Option<(u32, u8)> {
    match captured_quote(d, linktype, 28) {
        None => None,
        Some((src, inner)) => if inner[9] != 17 {
            None
        } else {
            let seg = ipv4_payload_of(inner);
            if seg.len() < 4 {
                None
            } else {
                let port = word_at(seg, 2);
                if port < UDP_BASE_PORT {
                    None
                } else {
                    let ttl = ((port - UDP_BASE_PORT) % 256) as u8;
                    if ttl == 0 || ttl > 64 {
                        None
                    } else {
                        Some((src, ttl))
                    }
                }
            }
        },
    }
}

/// The router and probe TTL of a captured ICMP message about a TCP probe:
/// the quoted packet carries TCP (6) whose source port, less 36000, is a
/// TTL from 1 to 64.
pub open spec fn captured_tcp_attribution(d: Seq<u8>, linktype: i32) -> Option<(u32, u8)> {
    match captured_quote(d, linktype, 24) {
        None => None,
        Some((src, inner)) => if inner[9] != 6 {
            None
        } else {
            let seg = ipv4_payload_of(inner);
            if seg.len() < 4 {
                None
            } else {
                let port = word_at(seg, 0);
                if port < TCP_BASE_SRC_PORT || port - TCP_BASE_SRC_PORT == 0 || port - TCP_BASE_SRC_PORT > 64 {
                    None
                } else {
                    Some((src, (port - TCP_BASE_SRC_PORT) as u8))
                }
            }
        },
    }
}

/// The quoted packet of a captured ICMP error message, with its sender.
fn quote_of(data: &[u8], linktype: i32, min_quote: usize) -> (r: Option<(u32, Vec<u8>)>)
    requires
        min_quote >= 20,
    ensures
        match r {
            Some((src, q)) => captured_quote(data@, linktype, min_quote as int) == Some((src, q@)),
            None => captured_quote(data@, linktype, min_quote as int) is None,
        },
{
    let ip = match strip_link_header(data, linktype) {
        Some(s) => s,
        None => {
            return None;
        },
    };
    match ipv4_protocol(ip) {
        Some(p) => {
            if p != 1 {
                return None;
            }
        },
        None => {
            return None;
        },
    }
    let src = match ipv4_source(ip) {
        Some(a) => a,
        None => {
            return None;
        },
    };
    let msg = match ipv4_payload(ip) {
        Some(v) => v,
        None => {
            return None;
        },
    };
    match message_type(msg.as_slice()) {
        Some(t) => {
            if t != 11 && t != 3 {
                return None;
            }
        },
        None => {
            return None;
        },
    }
    let body = match message_body(msg.as_slice()) {
        Some(v) => v,
        None => {
            return None;
        },
    };
    if body.len() < 4 || body.len() - 4 < min_quote {
        return None;
    }
    let quoted = vstd::slice::slice_subrange(body.as_slice(), 4, body.len());
    assert(quoted@ =~= body@.skip(4));
    let mut q: Vec<u8> = Vec::new();
    let mut i: usize = 0;
    while i < quoted.len()
        invariant
            i <= quoted@.len(),
            q@ == quoted@.take(i as int),
        decreases quoted@.len() - i,
    {
        q.push(quoted[i]);
        i = i + 1;
        assert(q@ =~= quoted@.take(i as int));
    }
    assert(q@ =~= quoted@);
    Some((src, q))
}

/// The TTL that a UDP probe's destination port names: the port less 33434,
/// modulo 256, when that is from 1 to 64.
pub fn captured_udp_ttl(port: u16) -> (r: Option<u8>)
    ensures
        r == (if port < UDP_BASE_PORT || ((port - UDP_BASE_PORT) % 256) as u8 == 0 || ((port - UDP_BASE_PORT)
            % 256) as u8 > 64 {
            None
        } else {
            Some(((port - UDP_BASE_PORT) % 256) as u8)
        }),
{
    if port < UDP_BASE_PORT {
        return None;
    }
    let ttl = ((port - UDP_BASE_PORT) % 256) as u8;
    if ttl == 0 || ttl > 64 {
        return None;
    }
    Some(ttl)
}

/// The TTL that a TCP probe's source port names: the port less 36000, when
/// that is from 1 to 64.
pub fn tcp_port_ttl(port: u16) -> (r: Option<u8>)
    ensures
        r == (if port < TCP_BASE_SRC_PORT || port - TCP_BASE_SRC_PORT == 0 || port - TCP_BASE_SRC_PORT > 64 {
            None
        } else {
            Some((port - TCP_BASE_SRC_PORT) as u8)
        }),
{
    if port < TCP_BASE_SRC_PORT {
        return None;
    }
    let ttl = port - TCP_BASE_SRC_PORT;
    if ttl == 0 || ttl > 64 {
        return None;
    }
    Some(ttl as u8)
}

/// Reads a frame captured during a UDP traceroute of link type `linktype`
/// and returns the router that reported on a probe and that probe's TTL.
pub fn parse_icmp_for_udp(data: &[u8], linktype: i32) -> (r: Option<(u32, u8)>)
    ensures
        r == captured_udp_attribution(data@, linktype),
{
    let (src, inner) = match quote_of(data, linktype, 28) {
        Some(x) => x,
        None => {
            return None;
        },
    };
    match ipv4_protocol(inner.as_slice()) {
        Some(p) => {
            if p != 17 {
                return None;
            }
        },
        None => {
            return None;
        },
    }
    let seg = match ipv4_payload(inner.as_slice()) {
        Some(v) => v,
        None => {
            return None;
        },
    };
    if seg.len() < 4 {
        return None;
    }
    match captured_udp_ttl(word_of(seg.as_slice(), 2)) {
        Some(ttl) => Some((src, ttl)),
        None => None,
    }
}

/// Reads a frame captured during a TCP traceroute of link type `linktype`
/// and returns the router that reported on a probe and that probe's TTL.
pub fn parse_icmp_for_tcp(data: &[u8], linktype: i32) -> (r: Option<(u32, u8)>)
    ensures
        r == captured_tcp_attribution(data@, linktype),
{
    let (src, inner) = match quote_of(data, linktype, 24) {
        Some(x) => x,
        None => {
            return None;
        },
    };
    match ipv4_protocol(inner.as_slice()) {
        Some(p) => {
            if p != 6 {
                return None;
            }
        },
        None => {
            return None;
        },
    }
    let seg = match ipv4_payload(inner.as_slice()) {
        Some(v) => v,
        None => {
            return None;
        },
    };
    if seg.len() < 4 {
        return None;
    }
    match tcp_port_ttl(word_of(seg.as_slice(), 0)) {
        Some(ttl) => Some((src, ttl)),
        None => None,
    }
}

/// The TTL of the probe that a captured TCP segment from the target
/// answers: the packet comes from `target`, carries TCP (6) from
/// `target_port`, and its destination port, less 36000, is a TTL from 1
/// to 64.
pub open spec fn target_tcp_ttl(d: Seq<u8>, linktype: i32, target: u32, target_port: u16) -> Option<u8> {
    match link_payload(d, linktype) {
        None => None,
        Some(ip) => if ip.len() < 20 || be32_at(ip, 12) != target || ip[9] != 6 {
            None
        } else {
            let seg = ipv4_payload_of(ip);
            if seg.len() < 4 || word_at(seg, 0) != target_port {
                None
            } else {
                let port = word_at(seg, 2);
                if port < TCP_BASE_SRC_PORT || port - TCP_BASE_SRC_PORT == 0 || port - TCP_BASE_SRC_PORT > 64 {
                    None
                } else {
                    Some((port - TCP_BASE_SRC_PORT) as u8)
                }
            }
        },
    }
}

/// Reads a captured frame and returns the TTL of our probe that the target
/// answered with it, if it is a TCP segment from `target:target_port`.
pub fn parse_target_tcp_for_ttl(data: &[u8], linktype: i32, target: u32, target_port: u16) -> (r: Option<u8>)
    ensures
        r == target_tcp_ttl(data@, linktype, target, target_port),
{
    let ip = match strip_link_header(data, linktype) {
        Some(s) => s,
        None => {
            return None;
        },
    };
    match ipv4_source(ip) {
        Some(a) => {
            if a != target {
                return None;
            }
        },
        None => {
            return None;
        },
    }
    match ipv4_protocol(ip) {
        Some(p) => {
            if p != 6 {
                return None;
            }
        },
        None => {
            return None;
        },
    }
    let seg = match ipv4_payload(ip) {
        Some(v) => v,
        None => {
            return None;
        },
    };
    if seg.len() < 4 {
        return None;
    }
    if word_of(seg.as_slice(), 0) != target_port {
        return None;
    }
    tcp_port_ttl(word_of(seg.as_slice(), 2))
}

/// A capture device as the driver lists it: its name, its description when
/// it has one, and its IPv4 addresses (big-endian values).
#[derive(Debug, Clone)]
pub struct CaptureDevice {
    pub name: String,
    pub desc: Option<String>,
    pub ipv4_addrs: Vec<u32>,
}

/// A device's description (empty when it has none) and its addresses.
pub open spec fn device_view(d: CaptureDevice) -> (Seq<char>, Seq<u32>) {
    (
        match d.desc {
            Some(s) => s@,
            None => Seq::empty(),
        },
        d.ipv4_addrs@,
    )
}

/// An address that carries traffic: neither loopback (127/8) nor
/// unspecified (0.0.0.0).
pub open spec fn routable_v4(a: u32) -> bool {
    a / 16777216 != 127 && a != 0
}

/// A device with a routable IPv4 address.
pub open spec fn has_routable_v4(addrs: Seq<u32>) -> bool {
    exists|i: int| 0 <= i < addrs.len() && routable_v4(#[trigger] addrs[i])
}

/// A description that names a virtual or otherwise unsuitable adapter.
pub open spec fn looks_virtual(desc: Seq<char>) -> bool {
    has_infix(desc, "loopback"@) || has_infix(desc, "Loopback"@) || has_infix(desc, "LOOPBACK"@) || has_infix(
        desc,
        "Hyper-V"@,
    ) || has_infix(desc, "Virtual"@) || has_infix(desc, "VMware"@) || has_infix(desc, "VMnet"@) || has_infix(
        desc,
        "WSL"@,
    ) || has_infix(desc, "vEthernet"@) || has_infix(desc, "Bluetooth"@) || has_infix(desc, "Tunnel"@)
}

/// The first device from `k` on that has the address `a`, or the number of
/// devices.
pub open spec fn first_with_address(devs: Seq<(Seq<char>, Seq<u32>)>, a: u32, k: int) -> int
    decreases devs.len() - k,
{
    if k < 0 || k >= devs.len() {
        devs.len() as int
    } else if devs[k].1.contains(a) {
        k
    } else {
        first_with_address(devs, a, k + 1)
    }
}

/// The first device from `k` on that does not look virtual and has a
/// routable address (with `physical_only`), or that just has one.
pub open spec fn first_routable(devs: Seq<(Seq<char>, Seq<u32>)>, physical_only: bool, k: int) -> int
    decreases devs.len() - k,
{
    if k < 0 || k >= devs.len() {
        devs.len() as int
    } else if (!physical_only || !looks_virtual(devs[k].0)) && has_routable_v4(devs[k].1) {
        k
    } else {
        first_routable(devs, physical_only, k + 1)
    }
}

/// The device to capture on: the one that holds the machine's outgoing
/// address when one does; else the first that does not look virtual and
/// has a routable address; else the first with a routable address; else
/// none.
pub open spec fn default_device(devs: Seq<(Seq<char>, Seq<u32>)>, local_ip: Option<u32>) -> Option<int> {
    let a = match local_ip {
        Some(v) => first_with_address(devs, v, 0),
        None => devs.len() as int,
    };
    let b = first_routable(devs, true, 0);
    let c = first_routable(devs, false, 0);
    if a < devs.len() {
        Some(a)
    } else if b < devs.len() {
        Some(b)
    } else if c < devs.len() {
        Some(c)
    } else {
        None
    }
}

/// Whether `addrs` holds `a`.
fn holds_address(addrs: &Vec<u32>, a: u32) -> (r: bool)
    ensures
        r == addrs@.contains(a),
{
    let mut i: usize = 0;
    while i < addrs.len()
        invariant
            i <= addrs@.len(),
            forall|k: int| 0 <= k < i ==> addrs@[k] != a,
        decreases addrs@.len() - i,
    {
        if addrs[i] == a {
            assert(addrs@[i as int] == a);
            return true;
        }
        i = i + 1;
    }
    false
}

/// Whether `addrs` holds a routable address.
fn holds_routable(addrs: &Vec<u32>) -> (r: bool)
    ensures
        r == has_routable_v4(addrs@),
{
    let mut i: usize = 0;
    while i < addrs.len()
        invariant
            i <= addrs@.len(),
            forall|k: int| 0 <= k < i ==> !routable_v4(#[trigger] addrs@[k]),
        decreases addrs@.len() - i,
    {
        let a = addrs[i];
        if a / 16777216 != 127 && a != 0 {
            assert(routable_v4(addrs@[i as int]));
            return true;
        }
        i = i + 1;
    }
    false
}

/// Whether a description names a virtual adapter.
fn is_virtual_desc(desc: &str) -> (r: bool)
    ensures
        r == looks_virtual(desc@),
{
    contains_text(desc, "loopback") || contains_text(desc, "Loopback") || contains_text(desc, "LOOPBACK")
        || contains_text(desc, "Hyper-V") || contains_text(desc, "Virtual") || contains_text(desc, "VMware")
        || contains_text(desc, "VMnet") || contains_text(desc, "WSL") || contains_text(desc, "vEthernet")
        || contains_text(desc, "Bluetooth") || contains_text(desc, "Tunnel")
}

/// The devices as descriptions and addresses.
pub open spec fn devices_view(devs: Seq<CaptureDevice>) -> Seq<(Seq<char>, Seq<u32>)> {
    devs.map_values(|d: CaptureDevice| device_view(d))
}

/// The first device with a routable address (and not looking virtual,
/// with `physical_only`).
fn find_routable(devices: &Vec<CaptureDevice>, physical_only: bool) -> (r: usize)
    ensures
        r == first_routable(devices_view(devices@), physical_only, 0),
{
    let ghost dv = devices_view(devices@);
    let mut k: usize = 0;
    while k < devices.len()
        invariant
            dv == devices_view(devices@),
            k <= devices@.len(),
            first_routable(dv, physical_only, 0) == first_routable(dv, physical_only, k as int),
        decreases devices@.len() - k,
    {
        assert(dv[k as int] == device_view(devices@[k as int]));
        let d = &devices[k];
        let physical = match &d.desc {
            Some(s) => !is_virtual_desc(s.as_str()),
            None => {
                proof {
                    reveal_strlit("");
                }
                assert(""@ =~= Seq::<char>::empty());
                !is_virtual_desc("")
            },
        };
        if (!physical_only || physical) && holds_routable(&d.ipv4_addrs) {
            return k;
        }
        k = k + 1;
    }
    k
}

/// The index of the device to capture on, given the machine's outgoing
/// IPv4 address when known; an error when no device has a routable IPv4
/// address.
pub fn pick_default_device(devices: &Vec<CaptureDevice>, local_ip: Option<u32>) -> (r: Result<usize, AppError>)
    ensures
        match r {
            Ok(i) => default_device(devices_view(devices@), local_ip) == Some(i as int),
            Err(e) => default_device(devices_view(devices@), local_ip) is None && (e matches AppError::TracerouteError(
                m,
            ) && m@ == "未找到合适的网卡（无 IPv4 非 loopback 接口）"@),
        },
{
    let ghost dv = devices_view(devices@);
    match local_ip {
        Some(v) => {
            let mut k: usize = 0;
            while k < devices.len()
                invariant
                    dv == devices_view(devices@),
                    local_ip == Some(v),
                    k <= devices@.len(),
                    first_with_address(dv, v, 0) == first_with_address(dv, v, k as int),
                decreases devices@.len() - k,
            {
                assert(dv[k as int] == device_view(devices@[k as int]));
                if holds_address(&devices[k].ipv4_addrs, v) {
                    return Ok(k);
                }
                k = k + 1;
            }
        },
        None => {},
    }
    let b = find_routable(devices, true);
    if b < devices.len() {
        return Ok(b);
    }
    let c = find_routable(devices, false);
    if c < devices.len() {
        return Ok(c);
    }
    Err(AppError::TracerouteError(String::from_str("未找到合适的网卡（无 IPv4 非 loopback 接口）")))
}

} // verus!
