//! Targets written as `host:port`.
use vstd::prelude::*;

use crate::ip::{is_ipv6_in, is_ipv6_literal, lemma_no_double_colon};
use crate::text::{
    chars_of, dec_digits, fields, is_dec_digit, lemma_find_char_is, last_index_of, lemma_dec_digits_value, lemma_last_index_is, parse_unsigned,
    parse_unsigned_in, rfind_char,
};

verus! {

/// The host and port of `t`: unless `t` is itself an IPv6 address, when the
/// text after its last `:` is a port number, the text before that `:` and the
/// number; otherwise `t` itself and `default_port` (so a bare IPv6 address
/// keeps all its colons).
pub open spec fn split_target(t: Seq<char>, default_port: u16) -> (Seq<char>, u16) {
    let p = last_index_of(t, ':');
    if p >= 0 && !is_ipv6_literal(t) && parse_unsigned(t.skip(p + 1), 65535) is Some {
        (t.take(p), parse_unsigned(t.skip(p + 1), 65535)->0 as u16)
    } else {
        (t, default_port)
    }
}

/// A host, a colon and a port number split back into that host and port,
/// unless the whole text reads as an IPv6 address.
pub proof fn lemma_split_target_round_trip(host: Seq<char>, port: u16, default_port: u16)
    requires
        !is_ipv6_literal(host + seq![':'] + dec_digits(port as nat)),
    ensures
        split_target(host + seq![':'] + dec_digits(port as nat), default_port) == (host, port),
{
    let d = dec_digits(port as nat);
    let t = host + seq![':'] + d;
    let m = host.len() as int;
    lemma_dec_digits_value(port as nat);
    assert forall|j: int| m < j < t.len() implies t[j] != ':' by {
        assert(t[j] == d[j - m - 1]);
        assert(is_dec_digit(d[j - m - 1]));
    }
    lemma_last_index_is(t, ':', m);
    assert(t.skip(m + 1) =~= d);
    assert(t.take(m) =~= host);
    assert(is_dec_digit(d[0]));
}

/// A host without colons, a colon and a port number never read as an IPv6
/// address, so they split back into that host and port.
pub proof fn lemma_split_plain_host_round_trip(host: Seq<char>, port: u16, default_port: u16)
    requires
        forall|i: int| 0 <= i < host.len() ==> host[i] != ':',
    ensures
        split_target(host + seq![':'] + dec_digits(port as nat), default_port) == (host, port),
{
    let d = dec_digits(port as nat);
    let t = host + seq![':'] + d;
    let m = host.len() as int;
    lemma_dec_digits_value(port as nat);
    assert forall|j: int| m < j < t.len() implies t[j] != ':' by {
        assert(t[j] == d[j - m - 1]);
        assert(is_dec_digit(d[j - m - 1]));
    }
    assert forall|j: int| 0 <= j < m implies t[j] != ':' by {
        assert(t[j] == host[j]);
    }
    assert forall|i: int| 0 <= i < t.len() - 1 implies !(#[trigger] t[i] == ':' && t[i + 1] == ':') by {
        if i < m {
            assert(t[i] != ':');
        } else {
            assert(t[i + 1] != ':');
        }
    }
    lemma_no_double_colon(t);
    lemma_find_char_is(t, ':', m);
    lemma_find_char_is(t.skip(m + 1), ':', t.skip(m + 1).len() as int);
    assert(fields(t.skip(m + 1), ':') == seq![t.skip(m + 1)]);
    assert(fields(t, ':') == seq![t.take(m)] + fields(t.skip(m + 1), ':'));
    assert(fields(t, ':').len() == 2);
    assert(!is_ipv6_literal(t));
    lemma_split_target_round_trip(host, port, default_port);
}

/// Splits `host:port`; without a port, `default_port`.
pub fn split_target_port(target: &str, default_port: u16) -> (r: (String, u16))
    ensures
        (r.0@, r.1) == split_target(target@, default_port),
{
    let v = chars_of(target);
    if let Some(p) = rfind_char(v.as_slice(), ':') {
        assert(v@.subrange(p + 1, v@.len() as int) =~= target@.skip(p + 1));
        let ipv6 = is_ipv6_in(v.as_slice(), 0, v.len());
        assert(v@.subrange(0, v@.len() as int) =~= target@);
        if ipv6 {
            return (target.to_owned(), default_port);
        }
        if let Some(port) = parse_unsigned_in(v.as_slice(), p + 1, v.len(), 65535) {
            let host = target.substring_char(0, p).to_owned();
            assert(host@ =~= target@.take(p as int));
            return (host, port as u16);
        }
    }
    (target.to_owned(), default_port)
}

/// Splits `host:port` for a TCP probe; without a port, 443 (HTTPS).
pub fn parse_target_with_port(target: &str) -> (r: (String, u16))
    ensures
        (r.0@, r.1) == split_target(target@, 443),
{
    split_target_port(target, 443)
}

} // verus!
