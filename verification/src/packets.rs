//! Attribution of ICMP replies, read from a raw IPv4 socket, to the probes
//! that caused them.
//!
//! A raw socket hands over `[IPv4 header][ICMP message]`. An Echo Reply
//! (type 0) carries the identifier and sequence of the request directly; a
//! Time Exceeded (type 11) or Destination Unreachable (type 3) message quotes
//! the offending packet after its 8-byte header: its IPv4 header and the
//! first 8 bytes of its payload.
use vstd::prelude::*;

use crate::checksum::echo_request_bytes;

verus! {

/// First destination port of UDP probes; the probe with TTL `t` goes to `33434 + t`.
pub const UDP_BASE_PORT: u16 = 33434;

/// First source port of TCP probes; the probe with TTL `t` leaves from `36000 + t`.
pub const TCP_BASE_SRC_PORT: u16 = 36000;

/// Length in bytes of an IPv4 header whose first byte is `b` (its low nibble
/// counts 32-bit words).
pub open spec fn header_len(b: u8) -> int {
    (b % 16) as int * 4
}

/// The big-endian 16-bit word at `i`.
pub open spec fn word_at(d: Seq<u8>, i: int) -> int {
    d[i] as int * 256 + d[i + 1] as int
}

/// The header length of an IPv4 header starting with byte `b`.
pub fn header_len_of(b: u8) -> (r: usize)
    ensures
        r == header_len(b),
        r <= 60,
{
    let nibble = b & 0x0F;
    assert(nibble == b % 16) by (bit_vector)
        requires
            nibble == b & 0x0F,
    ;
    (nibble as usize) * 4
}

/// The big-endian 16-bit word at `i` of `d`.
pub fn word_of(d: &[u8], i: usize) -> (r: u16)
    requires
        i + 1 < d@.len(),
    ensures
        r == word_at(d@, i as int),
{
    (d[i] as u16) * 256 + (d[i + 1] as u16)
}

/// What a reply to an echo probe tells: the ICMP type and the sequence number
/// of the echo request it answers, when that request carried `id`.
pub open spec fn echo_reply_attribution(d: Seq<u8>, id: u16) -> Option<(u8, u16)> {
    if d.len() < 28 {
        None
    } else {
        let h = header_len(d[0]);
        if d.len() < h + 8 {
            None
        } else if d[h] == 0 {
            if word_at(d, h + 4) == id {
                Some((0u8, word_at(d, h + 6) as u16))
            } else {
                None
            }
        } else if d[h] == 11 || d[h] == 3 {
            if d.len() < h + 36 {
                None
            } else {
                let quoted = h + 8 + header_len(d[h + 8]);
                if d.len() < quoted + 8 {
                    None
                } else if word_at(d, quoted + 4) == id {
                    Some((d[h], word_at(d, quoted + 6) as u16))
                } else {
                    None
                }
            }
        } else {
            None
        }
    }
}

/// Reads a packet received on a raw ICMP socket and returns the ICMP type and
/// the sequence number of the echo request it answers, if it answers a
/// request that carried `expected_id` (Echo Reply, Time Exceeded or
/// Destination Unreachable).
pub fn parse_icmp_reply(data: &[u8], expected_id: u16) -> (r: Option<(u8, u16)>)
    ensures
        r == echo_reply_attribution(data@, expected_id),
{
    if data.len() < 28 {
        return None;
    }
    let ihl = header_len_of(data[0]);
    if data.len() < ihl + 8 {
        return None;
    }
    let kind = data[ihl];
    if kind == 0 {
        let id = word_of(data, ihl + 4);
        let seq = word_of(data, ihl + 6);
        if id != expected_id {
            return None;
        }
        Some((0, seq))
    } else if kind == 11 || kind == 3 {
        if data.len() - ihl < 8 + 20 + 8 {
            return None;
        }
        let inner_ihl = header_len_of(data[ihl + 8]);
        let quoted = ihl + 8 + inner_ihl;
        if data.len() < quoted + 8 {
            return None;
        }
        let id = word_of(data, quoted + 4);
        let seq = word_of(data, quoted + 6);
        if id != expected_id {
            return None;
        }
        Some((kind, seq))
    } else {
        None
    }
}

/// The TTL of the UDP probe quoted by a Time Exceeded / Destination Unreachable
/// message, with the ICMP type: the quoted packet must be IPv4 carrying UDP
/// whose destination port is `33434 + ttl` with `1 <= ttl <= 64`.
pub open spec fn udp_probe_attribution(d: Seq<u8>) -> Option<(u8, u8)> {
    if d.len() < 28 {
        None
    } else {
        let h = header_len(d[0]);
        if d.len() < h + 8 {
            None
        } else if d[h] != 11 && d[h] != 3 {
            None
        } else if d.len() < h + 36 {
            None
        } else {
            let ip = h + 8;
            if d[ip] / 16 != 4 {
                None
            } else {
                let ih = header_len(d[ip]);
                if d.len() < ip + ih + 8 {
                    None
                } else if d[ip + 9] != 17 {
                    None
                } else {
                    let port = word_at(d, ip + ih + 2);
                    if port < UDP_BASE_PORT || port - UDP_BASE_PORT == 0 || port - UDP_BASE_PORT > 64 {
                        None
                    } else {
                        Some((d[h], (port - UDP_BASE_PORT) as u8))
                    }
                }
            }
        }
    }
}

/// The version nibble of an IPv4 header's first byte.
pub fn version_of(b: u8) -> (r: u8)
    ensures
        r == b / 16,
{
    let v = b >> 4;
    assert(v == b / 16) by (bit_vector)
        requires
            v == b >> 4,
    ;
    v
}

/// The TTL encoded in a UDP probe's destination port, if it is one of ours.
pub fn ttl_from_udp_port(port: u16) -> (r: Option<u8>)
    ensures
        r == (if port < UDP_BASE_PORT || port - UDP_BASE_PORT == 0 || port - UDP_BASE_PORT > 64 {
            None
        } else {
            Some((port - UDP_BASE_PORT) as u8)
        }),
{
    if port < UDP_BASE_PORT {
        return None;
    }
    let ttl = port - UDP_BASE_PORT;
    if ttl == 0 || ttl > 64 {
        return None;
    }
    Some(ttl as u8)
}

/// Reads a packet received on a raw ICMP socket during a UDP traceroute and
/// returns the ICMP type and the TTL of the probe it reports on. The target
/// address is not consulted.
pub fn parse_icmp_for_udp(data: &[u8], _target: u32) -> (r: Option<(u8, u8)>)
    ensures
        r == udp_probe_attribution(data@),
{
    if data.len() < 28 {
        return None;
    }
    let ihl = header_len_of(data[0]);
    if data.len() < ihl + 8 {
        return None;
    }
    let kind = data[ihl];
    if kind != 11 && kind != 3 {
        return None;
    }
    if data.len() - ihl < 8 + 20 + 8 {
        return None;
    }
    let ip = ihl + 8;
    if version_of(data[ip]) != 4 {
        return None;
    }
    let inner_ihl = header_len_of(data[ip]);
    if data.len() - ip < inner_ihl + 8 {
        return None;
    }
    if data[ip + 9] != 17 {
        return None;
    }
    let dst_port = word_of(data, ip + inner_ihl + 2);
    match ttl_from_udp_port(dst_port) {
        Some(ttl) => Some((kind, ttl)),
        None => None,
    }
}

/// The source port of the TCP segment quoted by a Time Exceeded / Destination
/// Unreachable message, when the quoted packet is IPv4 carrying TCP.
pub open spec fn tcp_quoted_source_port(d: Seq<u8>) -> Option<u16> {
    if d.len() < 28 {
        None
    } else {
        let h = header_len(d[0]);
        if d.len() < h + 8 {
            None
        } else if d[h] != 11 && d[h] != 3 {
            None
        } else if d.len() < h + 32 {
            None
        } else {
            let ip = h + 8;
            if d[ip] / 16 != 4 {
                None
            } else {
                let ih = header_len(d[ip]);
                if d.len() < ip + ih + 4 {
                    None
                } else if d[ip + 9] != 6 {
                    None
                } else {
                    Some(word_at(d, ip + ih) as u16)
                }
            }
        }
    }
}

/// The TTL of the first `(ttl, source port)` entry whose port is `port`.
pub open spec fn ttl_for_port(table: Seq<(u8, u16)>, port: u16) -> Option<u8>
    decreases table.len(),
{
    if table.len() == 0 {
        None
    } else if table[0].1 == port {
        Some(table[0].0)
    } else {
        ttl_for_port(table.drop_first(), port)
    }
}

/// Looks up the TTL whose probe left from `port` in the `(ttl, source port)` table.
pub fn lookup_ttl_for_port(table: &[(u8, u16)], port: u16) -> (r: Option<u8>)
    ensures
        r == ttl_for_port(table@, port),
{
    let mut i: usize = 0;
    assert(table@.skip(0) =~= table@);
    while i < table.len()
        invariant
            i <= table@.len(),
            ttl_for_port(table@, port) == ttl_for_port(table@.skip(i as int), port),
        decreases table.len() - i,
    {
        let (ttl, sp) = table[i];
        assert(table@.skip(i as int)[0] == table@[i as int]);
        assert(table@.skip(i as int).drop_first() =~= table@.skip(i + 1));
        if sp == port {
            return Some(ttl);
        }
        i = i + 1;
    }
    None
}

/// Reads a packet received on a raw ICMP socket during a TCP traceroute and
/// returns the TTL of the probe it reports on, found through the quoted
/// source port in the `(ttl, source port)` table of the probes sent.
pub fn parse_icmp_for_tcp(data: &[u8], tcp_sockets: &[(u8, u16)]) -> (r: Option<u8>)
    ensures
        r == (match tcp_quoted_source_port(data@) {
            Some(port) => ttl_for_port(tcp_sockets@, port),
            None => None,
        }),
{
    if data.len() < 28 {
        return None;
    }
    let ihl = header_len_of(data[0]);
    if data.len() < ihl + 8 {
        return None;
    }
    let kind = data[ihl];
    if kind != 11 && kind != 3 {
        return None;
    }
    if data.len() - ihl < 8 + 20 + 4 {
        return None;
    }
    let ip = ihl + 8;
    if version_of(data[ip]) != 4 {
        return None;
    }
    let inner_ihl = header_len_of(data[ip]);
    if data.len() - ip < inner_ihl + 4 {
        return None;
    }
    if data[ip + 9] != 6 {
        return None;
    }
    let src_port = word_of(data, ip + inner_ihl);
    lookup_ttl_for_port(tcp_sockets, src_port)
}

/// An ICMP error message (type 11 or 3) that quotes an echo request sent by
/// this library, with its identifier, is attributed to that request's
/// sequence number.
pub proof fn lemma_quoted_echo_request_attributed(
    outer: Seq<u8>,
    kind: u8,
    rest: Seq<u8>,
    inner: Seq<u8>,
    identifier: u16,
    sequence: u16,
)
    requires
        outer.len() >= 20,
        outer.len() == header_len(outer[0]),
        kind == 11 || kind == 3,
        rest.len() == 7,
        inner.len() >= 20,
        inner.len() == header_len(inner[0]),
    ensures
        echo_reply_attribution(
            outer + seq![kind] + rest + inner + echo_request_bytes(identifier, sequence).take(8),
            identifier,
        ) == Some((kind, sequence)),
{
    let req = echo_request_bytes(identifier, sequence);
    let d = outer + seq![kind] + rest + inner + req.take(8);
    let h = header_len(outer[0]);
    let q = h + 8 + header_len(inner[0]);
    assert(d[0] == outer[0]);
    assert(d[h] == kind);
    assert(d[h + 8] == inner[0]);
    assert(d[q + 4] == req[4] && d[q + 5] == req[5] && d[q + 6] == req[6] && d[q + 7] == req[7]);
    assert(word_at(d, q + 4) == identifier);
    assert(word_at(d, q + 6) == sequence);
}

/// An Echo Reply that echoes the identifier and sequence of a request built
/// by this library is attributed to that sequence number.
pub proof fn lemma_echo_reply_attributed(
    outer: Seq<u8>,
    rest: Seq<u8>,
    payload: Seq<u8>,
    identifier: u16,
    sequence: u16,
)
    requires
        outer.len() >= 20,
        outer.len() == header_len(outer[0]),
        rest.len() == 3,
    ensures
        echo_reply_attribution(
            outer + seq![0u8] + rest + echo_request_bytes(identifier, sequence).subrange(4, 8) + payload,
            identifier,
        ) == Some((0u8, sequence)),
{
    let req = echo_request_bytes(identifier, sequence);
    let d = outer + seq![0u8] + rest + req.subrange(4, 8) + payload;
    let h = header_len(outer[0]);
    assert(d[0] == outer[0]);
    assert(d[h] == 0);
    assert(d[h + 4] == req[4] && d[h + 5] == req[5] && d[h + 6] == req[6] && d[h + 7] == req[7]);
    assert(word_at(d, h + 4) == identifier);
    assert(word_at(d, h + 6) == sequence);
}

/// An ICMP error message quoting a UDP probe sent to port `33434 + ttl`
/// (`1 <= ttl <= 64`) is attributed to that TTL.
pub proof fn lemma_quoted_udp_probe_attributed(
    outer: Seq<u8>,
    kind: u8,
    rest: Seq<u8>,
    inner: Seq<u8>,
    udp: Seq<u8>,
    ttl: u8,
)
    requires
        outer.len() >= 20,
        outer.len() == header_len(outer[0]),
        kind == 11 || kind == 3,
        rest.len() == 7,
        inner.len() >= 20,
        inner.len() == header_len(inner[0]),
        inner[0] / 16 == 4,
        inner[9] == 17,
        udp.len() == 8,
        1 <= ttl <= 64,
        word_at(udp, 2) == UDP_BASE_PORT + ttl,
    ensures
        udp_probe_attribution(outer + seq![kind] + rest + inner + udp) == Some((kind, ttl)),
{
    let d = outer + seq![kind] + rest + inner + udp;
    let h = header_len(outer[0]);
    let ip = h + 8;
    let ih = header_len(inner[0]);
    assert(d[0] == outer[0]);
    assert(d[h] == kind);
    assert(d[ip] == inner[0]);
    assert(d[ip + 9] == inner[9]);
    assert(d[ip + ih + 2] == udp[2] && d[ip + ih + 3] == udp[3]);
    assert(word_at(d, ip + ih + 2) == word_at(udp, 2));
}

/// An ICMP error message quoting a TCP probe whose source port is recorded in
/// the probe table is attributed to the TTL recorded for that port.
pub proof fn lemma_quoted_tcp_probe_attributed(
    outer: Seq<u8>,
    kind: u8,
    rest: Seq<u8>,
    inner: Seq<u8>,
    tcp: Seq<u8>,
)
    requires
        outer.len() >= 20,
        outer.len() == header_len(outer[0]),
        kind == 11 || kind == 3,
        rest.len() == 7,
        inner.len() >= 20,
        inner.len() == header_len(inner[0]),
        inner[0] / 16 == 4,
        inner[9] == 6,
        tcp.len() >= 4,
    ensures
        tcp_quoted_source_port(outer + seq![kind] + rest + inner + tcp) == Some(word_at(tcp, 0) as u16),
{
    let d = outer + seq![kind] + rest + inner + tcp;
    let h = header_len(outer[0]);
    let ip = h + 8;
    let ih = header_len(inner[0]);
    assert(d[0] == outer[0]);
    assert(d[h] == kind);
    assert(d[ip] == inner[0]);
    assert(d[ip + 9] == inner[9]);
    assert(d[ip + ih] == tcp[0] && d[ip + ih + 1] == tcp[1]);
}

} // verus!
