//! The Internet checksum (RFC 1071) over byte buffers, and the ICMP echo
//! request that the traceroute probes send.
use vstd::prelude::*;

verus! {

/// A big-endian 16-bit word made of two bytes.
pub open spec fn be16(hi: u8, lo: u8) -> nat {
    hi as nat * 256 + lo as nat
}

/// Sum of the first `n` big-endian 16-bit words of `d`.
pub open spec fn words_sum(d: Seq<u8>, n: nat) -> nat
    decreases n,
{
    if n == 0 {
        0
    } else {
        words_sum(d, (n - 1) as nat) + be16(d[2 * (n - 1)], d[2 * (n - 1) + 1])
    }
}

/// The plain (unfolded) sum of RFC 1071: every whole word, and a trailing odd
/// byte taken as the high half of a word.
pub open spec fn ones_sum(d: Seq<u8>) -> nat {
    words_sum(d, d.len() / 2) + if d.len() % 2 == 1 {
        d[d.len() - 1] as nat * 256
    } else {
        0
    }
}

/// Adds the carries above bit 16 back into the low 16 bits until none remain.
pub open spec fn fold_carries(s: nat) -> nat
    decreases s,
{
    if s < 0x10000 {
        s
    } else {
        proof {
            lemma_fold_step_smaller(s);
        }
        fold_carries(s % 0x10000 + s / 0x10000)
    }
}

/// The checksum of `d`: the complement of the folded sum.
pub open spec fn spec_internet_checksum(d: Seq<u8>) -> u16 {
    (0xFFFF - fold_carries(ones_sum(d))) as u16
}

pub proof fn lemma_fold_step_smaller(s: nat)
    requires
        s >= 0x10000,
    ensures
        s % 0x10000 + s / 0x10000 < s,
{
    assert(s % 0x10000 + s / 0x10000 < s) by (nonlinear_arith)
        requires
            s >= 0x10000,
    ;
}

/// One folding step keeps the value modulo 0xFFFF and keeps a positive value positive.
proof fn lemma_fold_step(s: nat)
    ensures
        (s % 0x10000 + s / 0x10000) % 0xFFFF == s % 0xFFFF,
        s > 0 ==> s % 0x10000 + s / 0x10000 > 0,
{
    let a = s / 0x10000;
    let b = s % 0x10000;
    assert(s == a * 0x10000 + b) by (nonlinear_arith)
        requires
            a == s / 0x10000,
            b == s % 0x10000,
    ;
    assert((a + b) % 0xFFFF == (a * 0x10000 + b) % 0xFFFF) by (nonlinear_arith)
        requires
            a >= 0,
            b >= 0,
    {
        assert(a * 0x10000 + b == (a + b) + a * 0xFFFF);
        vstd::arithmetic::div_mod::lemma_mod_multiples_vanish(a as int, (a + b) as int, 0xFFFF);
    }
    if s > 0 {
        assert(a > 0 || b > 0) by (nonlinear_arith)
            requires
                s == a * 0x10000 + b,
                s > 0,
                a >= 0,
                b >= 0,
        ;
    }
}

/// The folded sum fits in 16 bits, is congruent to the sum modulo 0xFFFF,
/// and is positive when the sum is.
pub proof fn lemma_fold_carries(s: nat)
    ensures
        fold_carries(s) <= 0xFFFF,
        fold_carries(s) % 0xFFFF == s % 0xFFFF,
        s > 0 ==> fold_carries(s) > 0,
    decreases s,
{
    if s >= 0x10000 {
        lemma_fold_step_smaller(s);
        lemma_fold_step(s);
        lemma_fold_carries(s % 0x10000 + s / 0x10000);
    }
}

proof fn lemma_words_sum_bound(d: Seq<u8>, n: nat)
    requires
        2 * n <= d.len(),
    ensures
        words_sum(d, n) <= 0xFFFF * n,
    decreases n,
{
    if n > 0 {
        lemma_words_sum_bound(d, (n - 1) as nat);
    }
}

proof fn lemma_words_sum_monotonic(d: Seq<u8>, n: nat, m: nat)
    requires
        n <= m,
    ensures
        words_sum(d, n) <= words_sum(d, m),
    decreases m,
{
    if n < m {
        lemma_words_sum_monotonic(d, n, (m - 1) as nat);
    }
}

/// Computes the Internet checksum of `data`.
pub fn internet_checksum(data: &[u8]) -> (r: u16)
    requires
        ones_sum(data@) <= u32::MAX,
    ensures
        r == spec_internet_checksum(data@),
{
    let mut sum: u32 = 0;
    let mut i: usize = 0;
    while data.len() - i > 1
        invariant
            i % 2 == 0,
            i <= data.len(),
            sum == words_sum(data@, (i / 2) as nat),
            ones_sum(data@) <= u32::MAX,
        decreases data.len() - i,
    {
        proof {
            lemma_words_sum_monotonic(data@, (i / 2 + 1) as nat, (data@.len() / 2) as nat);
            assert(words_sum(data@, (i / 2 + 1) as nat) == words_sum(data@, (i / 2) as nat) + be16(
                data@[i as int],
                data@[i + 1],
            ));
        }
        sum = sum + (data[i] as u32 * 256 + data[i + 1] as u32);
        i = i + 2;
    }
    if i < data.len() {
        sum = sum + (data[i] as u32) * 256;
    }
    assert(sum == ones_sum(data@));
    let ghost total: nat = sum as nat;
    while (sum >> 16) != 0
        invariant
            fold_carries(sum as nat) == fold_carries(total),
        decreases sum,
    {
        let hi = sum >> 16;
        let lo = sum & 0xFFFF;
        assert(hi == sum / 0x10000 && lo == sum % 0x10000 && hi > 0 ==> sum >= 0x10000) by (bit_vector)
            requires
                hi == sum >> 16,
                lo == sum & 0xFFFF,
        ;
        assert(hi == sum / 0x10000) by (bit_vector)
            requires
                hi == sum >> 16,
        ;
        assert(lo == sum % 0x10000) by (bit_vector)
            requires
                lo == sum & 0xFFFF,
        ;
        proof {
            lemma_fold_step_smaller(sum as nat);
        }
        sum = lo + hi;
    }
    assert(sum < 0x10000) by (bit_vector)
        requires
            (sum >> 16) == 0,
    ;
    let folded = sum as u16;
    let r = !folded;
    assert(r == 0xFFFF - folded) by (bit_vector)
        requires
            r == !folded,
    ;
    r
}

/// The checksum of an ICMP message (computed over the message with its
/// checksum field set to zero).
pub fn icmp_checksum(data: &[u8]) -> (r: u16)
    requires
        ones_sum(data@) <= u32::MAX,
    ensures
        r == spec_internet_checksum(data@),
{
    internet_checksum(data)
}

/// Replacing one word leaves the other words of the sum unchanged.
proof fn lemma_words_sum_update(d: Seq<u8>, n: nat, k: nat, x: u8, y: u8)
    requires
        k < n,
        2 * n <= d.len(),
    ensures
        words_sum(d.update(2 * k as int, x).update(2 * k as int + 1, y), n) + be16(d[2 * k as int], d[2 * k as int + 1])
            == words_sum(d, n) + be16(x, y),
    decreases n,
{
    let e = d.update(2 * k as int, x).update(2 * k as int + 1, y);
    if n - 1 > k {
        lemma_words_sum_update(d, (n - 1) as nat, k, x, y);
        assert(e[2 * (n - 1)] == d[2 * (n - 1)]);
        assert(e[2 * (n - 1) + 1] == d[2 * (n - 1) + 1]);
    } else {
        assert(e[2 * k as int] == x);
        assert(e[2 * k as int + 1] == y);
        lemma_words_sum_prefix_same(d, e, k);
    }
}

/// Two buffers that agree on their first `2 * n` bytes have the same first `n` words.
proof fn lemma_words_sum_prefix_same(d: Seq<u8>, e: Seq<u8>, n: nat)
    requires
        2 * n <= d.len(),
        2 * n <= e.len(),
        forall|i: int| 0 <= i < 2 * n ==> d[i] == e[i],
    ensures
        words_sum(d, n) == words_sum(e, n),
    decreases n,
{
    if n > 0 {
        lemma_words_sum_prefix_same(d, e, (n - 1) as nat);
        assert(d[2 * (n - 1)] == e[2 * (n - 1)]);
        assert(d[2 * (n - 1) + 1] == e[2 * (n - 1) + 1]);
    }
}

/// Adding the complement of the folded sum to the sum folds to all ones.
proof fn lemma_complement_folds_to_all_ones(s: nat)
    ensures
        fold_carries(s + (0xFFFF - fold_carries(s)) as nat) == 0xFFFF,
{
    let f = fold_carries(s);
    lemma_fold_carries(s);
    if s == 0 {
        assert(f == 0);
    }
    let t: nat = (s + (0xFFFF - f)) as nat;
    lemma_fold_carries(t);
    let g = fold_carries(t);
    assert(t % 0xFFFF == 0) by (nonlinear_arith)
        requires
            f % 0xFFFF == s % 0xFFFF,
            t == s + (0xFFFF - f),
            f <= 0xFFFF,
    {
        let a = s / 0xFFFF;
        let b = f / 0xFFFF;
        let r = s % 0xFFFF;
        assert(s == a * 0xFFFF + r);
        assert(f == b * 0xFFFF + r);
        assert(t == (a - b + 1) * 0xFFFF);
        vstd::arithmetic::div_mod::lemma_mod_multiples_basic(a - b + 1, 0xFFFF);
    }
    assert(g == 0xFFFF) by (nonlinear_arith)
        requires
            g % 0xFFFF == 0,
            0 < g <= 0xFFFF,
    ;
}

/// Writing the checksum of a message into its (zeroed) checksum field, at an
/// even offset, makes the checksum of the whole message zero: the receiver's
/// check of a message this library checksums succeeds.
pub proof fn lemma_checksum_field_verifies(msg: Seq<u8>, k: nat)
    requires
        2 * k as int + 1 < msg.len(),
        msg[2 * k as int] == 0,
        msg[2 * k as int + 1] == 0,
    ensures
        ({
            let c = spec_internet_checksum(msg);
            spec_internet_checksum(msg.update(2 * k as int, (c / 256) as u8).update(2 * k as int + 1, (c % 256) as u8))
                == 0
        }),
{
    let c = spec_internet_checksum(msg);
    let hi = (c / 256) as u8;
    let lo = (c % 256) as u8;
    let filled = msg.update(2 * k as int, hi).update(2 * k as int + 1, lo);
    let n = msg.len() / 2;
    lemma_words_sum_update(msg, n, k, hi, lo);
    assert(be16(hi, lo) == c);
    lemma_fold_carries(ones_sum(msg));
    assert(ones_sum(filled) == ones_sum(msg) + c) by {
        if msg.len() % 2 == 1 {
            assert(filled[msg.len() - 1] == msg[msg.len() - 1]);
        }
    }
    lemma_complement_folds_to_all_ones(ones_sum(msg));
}

/// Data of even length followed by its own checksum (big-endian) has the
/// checksum zero: the receiver's check succeeds.
pub proof fn lemma_appended_checksum_verifies(data: Seq<u8>)
    requires
        data.len() % 2 == 0,
    ensures
        ({
            let c = spec_internet_checksum(data);
            spec_internet_checksum(data + seq![(c / 256) as u8, (c % 256) as u8]) == 0
        }),
{
    let c = spec_internet_checksum(data);
    let n = data.len() / 2;
    let m = data + seq![0u8, 0u8];
    assert(m.len() / 2 == n + 1);
    lemma_words_sum_prefix_same(data, m, n);
    assert(words_sum(m, n + 1) == words_sum(m, n) + be16(m[2 * n as int], m[2 * n as int + 1]));
    assert(ones_sum(m) == ones_sum(data));
    lemma_checksum_field_verifies(m, n);
    assert(m.update(2 * n as int, (c / 256) as u8).update(2 * n as int + 1, (c % 256) as u8) =~= data + seq![
        (c / 256) as u8,
        (c % 256) as u8,
    ]);
}

/// The high byte of a 16-bit value.
pub fn high_byte(x: u16) -> (r: u8)
    ensures
        r == x / 256,
{
    (x / 256) as u8
}

/// The low byte of a 16-bit value.
pub fn low_byte(x: u16) -> (r: u8)
    ensures
        r == x % 256,
{
    (x % 256) as u8
}

/// The echo request of `identifier` and `sequence` with a zero checksum field:
/// type 8, code 0, checksum, identifier, sequence (both big-endian) and the
/// eight payload bytes 0..=7.
pub open spec fn echo_request_template(identifier: u16, sequence: u16) -> Seq<u8> {
    seq![
        8u8,
        0u8,
        0u8,
        0u8,
        (identifier / 256) as u8,
        (identifier % 256) as u8,
        (sequence / 256) as u8,
        (sequence % 256) as u8,
        0u8,
        1u8,
        2u8,
        3u8,
        4u8,
        5u8,
        6u8,
        7u8,
    ]
}

/// The echo request as sent: the template with its checksum written big-endian
/// into bytes 2 and 3.
pub open spec fn echo_request_bytes(identifier: u16, sequence: u16) -> Seq<u8> {
    let t = echo_request_template(identifier, sequence);
    let c = spec_internet_checksum(t);
    t.update(2, (c / 256) as u8).update(3, (c % 256) as u8)
}

/// Builds the 16-byte ICMP echo request that a probe carries.
pub fn build_icmp_echo_request(identifier: u16, sequence: u16) -> (pkt: Vec<u8>)
    ensures
        pkt@ == echo_request_bytes(identifier, sequence),
{
    let mut pkt: Vec<u8> = vec![0u8; 16];
    pkt.set(0, 8);
    pkt.set(1, 0);
    pkt.set(2, 0);
    pkt.set(3, 0);
    pkt.set(4, high_byte(identifier));
    pkt.set(5, low_byte(identifier));
    pkt.set(6, high_byte(sequence));
    pkt.set(7, low_byte(sequence));
    let mut i: usize = 8;
    let mut v: u8 = 0;
    while i < 16
        invariant
            8 <= i <= 16,
            v == i - 8,
            pkt@.len() == 16,
            forall|j: int| 0 <= j < i ==> pkt@[j] == echo_request_template(identifier, sequence)[j],
        decreases 16 - i,
    {
        pkt.set(i, v);
        i = i + 1;
        v = v + 1;
    }
    assert(pkt@ =~= echo_request_template(identifier, sequence));
    proof {
        lemma_echo_template_sum_small(identifier, sequence);
    }
    let c = icmp_checksum(pkt.as_slice());
    pkt.set(2, high_byte(c));
    pkt.set(3, low_byte(c));
    pkt
}

proof fn lemma_echo_template_sum_small(identifier: u16, sequence: u16)
    ensures
        ones_sum(echo_request_template(identifier, sequence)) <= u32::MAX,
{
    lemma_words_sum_bound(echo_request_template(identifier, sequence), 8);
}

/// An echo request as built passes the receiver's checksum test.
pub proof fn lemma_echo_request_verifies(identifier: u16, sequence: u16)
    ensures
        spec_internet_checksum(echo_request_bytes(identifier, sequence)) == 0,
{
    lemma_checksum_field_verifies(echo_request_template(identifier, sequence), 1);
}

} // verus!
