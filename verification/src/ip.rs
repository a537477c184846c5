//! Textual IP addresses: recognising IPv4 and IPv6 literals in the notation
//! of the standard library's address parser, telling host names from
//! addresses, and classifying addresses that public lookups skip.
use vstd::prelude::*;

use crate::text::{
    lemma_find_char_is, all_dec_digits, all_dec_digits_in, all_hex_digits_in, chars_of, dec_value, dec_value_in, field_bounds, fields,
    is_dec_digit, is_hex_digit, ranges_of,
};

verus! {

/// A decimal octet: one to three digits, no leading zero unless it is the
/// only digit, value at most 255.
pub open spec fn is_dec_octet(s: Seq<char>) -> bool {
    &&& 1 <= s.len() <= 3
    &&& all_dec_digits(s)
    &&& (s.len() > 1 ==> s[0] != '0')
    &&& dec_value(s) <= 255
}

/// Dotted-quad IPv4 notation: exactly four decimal octets separated by dots.
pub open spec fn is_ipv4_literal(s: Seq<char>) -> bool {
    let f = fields(s, '.');
    f.len() == 4 && forall|k: int| 0 <= k < 4 ==> is_dec_octet(#[trigger] f[k])
}

/// A group of an IPv6 address: one to four hexadecimal digits.
pub open spec fn is_hex_group(s: Seq<char>) -> bool {
    1 <= s.len() <= 4 && forall|i: int| 0 <= i < s.len() ==> is_hex_digit(#[trigger] s[i])
}

/// The index at which the first `::` starts, or the length of `s` when there is none.
pub open spec fn find_double_colon(s: Seq<char>) -> int
    decreases s.len(),
{
    if s.len() < 2 {
        s.len() as int
    } else if s[0] == ':' && s[1] == ':' {
        0
    } else {
        1 + find_double_colon(s.drop_first())
    }
}

/// The colon-separated groups of `s`; none when `s` is empty.
pub open spec fn groups_of(s: Seq<char>) -> Seq<Seq<char>> {
    if s.len() == 0 {
        seq![]
    } else {
        fields(s, ':')
    }
}

/// Every part is a hexadecimal group.
pub open spec fn all_hex_groups(parts: Seq<Seq<char>>) -> bool {
    forall|k: int| 0 <= k < parts.len() ==> is_hex_group(#[trigger] parts[k])
}

/// Every part is a hexadecimal group, except that the last may be a dotted
/// IPv4 address (which stands for two groups).
pub open spec fn tail_groups_ok(parts: Seq<Seq<char>>) -> bool {
    forall|k: int|
        0 <= k < parts.len() ==> is_hex_group(#[trigger] parts[k]) || (k == parts.len() - 1
            && is_ipv4_literal(parts[k]))
}

/// The number of 16-bit groups the parts stand for.
pub open spec fn group_count(parts: Seq<Seq<char>>) -> int {
    parts.len() + if parts.len() > 0 && is_ipv4_literal(parts.last()) {
        1int
    } else {
        0int
    }
}

/// IPv6 notation: eight groups (the last two may be written as a dotted IPv4
/// address), or groups before and after a single `::` that stands for at
/// least one zero group, with a dotted IPv4 address allowed only at the end.
pub open spec fn is_ipv6_literal(s: Seq<char>) -> bool {
    let i = find_double_colon(s);
    if i >= s.len() {
        let f = fields(s, ':');
        (f.len() == 8 && all_hex_groups(f)) || (f.len() == 7 && all_hex_groups(f.take(6)) && is_ipv4_literal(
            f[6],
        ))
    } else {
        let a = groups_of(s.take(i));
        let b = groups_of(s.skip(i + 2));
        all_hex_groups(a) && tail_groups_ok(b) && a.len() + group_count(b) <= 7
    }
}

/// An IPv4 or IPv6 address literal.
pub open spec fn is_ip_literal(s: Seq<char>) -> bool {
    is_ipv4_literal(s) || is_ipv6_literal(s)
}

/// Whether `v[a..b]` is a decimal octet.
fn is_dec_octet_in(v: &[char], a: usize, b: usize) -> (r: bool)
    requires
        a <= b <= v@.len(),
    ensures
        r == is_dec_octet(v@.subrange(a as int, b as int)),
{
    if b - a < 1 || b - a > 3 {
        return false;
    }
    if !all_dec_digits_in(v, a, b) {
        return false;
    }
    if b - a > 1 && v[a] == '0' {
        assert(v@.subrange(a as int, b as int)[0] == v@[a as int]);
        return false;
    }
    assert(b - a > 1 ==> v@.subrange(a as int, b as int)[0] == v@[a as int]);
    dec_value_in(v, a, b) <= 255
}

/// Whether `v[lo..hi]` is dotted-quad IPv4 notation.
pub fn is_ipv4_in(v: &[char], lo: usize, hi: usize) -> (r: bool)
    requires
        lo <= hi <= v@.len(),
    ensures
        r == is_ipv4_literal(v@.subrange(lo as int, hi as int)),
{
    let bounds = field_bounds(v, lo, hi, '.');
    let ghost f = fields(v@.subrange(lo as int, hi as int), '.');
    if bounds.len() != 4 {
        return false;
    }
    let mut k: usize = 0;
    while k < 4
        invariant
            bounds@.len() == 4,
            k <= 4,
            ranges_of(v@, bounds@) == f,
            f == fields(v@.subrange(lo as int, hi as int), '.'),
            forall|j: int| 0 <= j < bounds@.len() ==> lo <= (#[trigger] bounds@[j]).0 <= bounds@[j].1 <= hi,
            hi <= v@.len(),
            forall|j: int| 0 <= j < k ==> is_dec_octet(#[trigger] f[j]),
        decreases 4 - k,
    {
        let (a, b) = bounds[k];
        assert(f[k as int] == v@.subrange(a as int, b as int));
        if !is_dec_octet_in(v, a, b) {
            assert(!is_dec_octet(f[k as int]));
            return false;
        }
        k = k + 1;
    }
    true
}

/// Whether `v[a..b]` is a hexadecimal group.
fn is_hex_group_in(v: &[char], a: usize, b: usize) -> (r: bool)
    requires
        a <= b <= v@.len(),
    ensures
        r == is_hex_group(v@.subrange(a as int, b as int)),
{
    if b - a < 1 || b - a > 4 {
        return false;
    }
    all_hex_digits_in(v, a, b)
}

/// `find_double_colon` is the first `::`.
proof fn lemma_find_double_colon(s: Seq<char>)
    ensures
        0 <= find_double_colon(s) <= s.len(),
        find_double_colon(s) < s.len() ==> find_double_colon(s) + 1 < s.len() && s[find_double_colon(s)]
            == ':' && s[find_double_colon(s) + 1] == ':',
        forall|j: int| 0 <= j < find_double_colon(s) && j + 1 < s.len() ==> !(#[trigger] s[j] == ':' && s[j + 1] == ':'),
    decreases s.len(),
{
    if s.len() >= 2 && !(s[0] == ':' && s[1] == ':') {
        lemma_find_double_colon(s.drop_first());
        assert forall|j: int| 0 <= j < find_double_colon(s) && j + 1 < s.len() implies !(#[trigger] s[j] == ':' && s[j
            + 1] == ':') by {
            if j > 0 {
                assert(s[j] == s.drop_first()[j - 1]);
                assert(s[j + 1] == s.drop_first()[j]);
            }
        }
    }
}

proof fn lemma_find_double_colon_is(s: Seq<char>, m: int)
    requires
        0 <= m <= s.len(),
        m < s.len() ==> m + 1 < s.len() && s[m] == ':' && s[m + 1] == ':',
        m == s.len() ==> forall|j: int| 0 <= j && j + 1 < s.len() ==> !(#[trigger] s[j] == ':' && s[j + 1] == ':'),
        forall|j: int| 0 <= j < m && j + 1 < s.len() ==> !(#[trigger] s[j] == ':' && s[j + 1] == ':'),
    ensures
        find_double_colon(s) == m,
    decreases s.len(),
{
    if s.len() >= 2 && m > 0 {
        let t = s.drop_first();
        assert forall|j: int| 0 <= j < m - 1 && j + 1 < t.len() implies !(#[trigger] t[j] == ':' && t[j + 1] == ':') by {
            assert(t[j] == s[j + 1] && t[j + 1] == s[j + 2]);
        }
        if m == s.len() {
            assert forall|j: int| 0 <= j && j + 1 < t.len() implies !(#[trigger] t[j] == ':' && t[j + 1] == ':') by {
                assert(t[j] == s[j + 1] && t[j + 1] == s[j + 2]);
            }
        }
        lemma_find_double_colon_is(t, m - 1);
    }
}

/// The index of the first `::` in `v[lo..hi]`, counted from `lo`, or `hi - lo`.
fn find_double_colon_in(v: &[char], lo: usize, hi: usize) -> (r: usize)
    requires
        lo <= hi <= v@.len(),
    ensures
        lo <= r <= hi,
        r - lo == find_double_colon(v@.subrange(lo as int, hi as int)),
{
    let ghost s = v@.subrange(lo as int, hi as int);
    let mut i = lo;
    while hi - i > 1
        invariant
            lo <= i <= hi <= v@.len(),
            s == v@.subrange(lo as int, hi as int),
            forall|j: int| lo <= j < i && j + 1 < hi ==> !(#[trigger] v@[j] == ':' && v@[j + 1] == ':'),
        decreases hi - i,
    {
        if v[i] == ':' && v[i + 1] == ':' {
            proof {
                lemma_find_double_colon_is(s, i - lo);
            }
            return i;
        }
        i = i + 1;
    }
    proof {
        lemma_find_double_colon_is(s, hi - lo);
    }
    hi
}

/// Whether every field of `v` named by `bounds[from..to]` is a hexadecimal group.
fn hex_groups_in(v: &[char], bounds: &Vec<(usize, usize)>, from: usize, to: usize) -> (r: bool)
    requires
        from <= to <= bounds@.len(),
        forall|j: int| 0 <= j < bounds@.len() ==> (#[trigger] bounds@[j]).0 <= bounds@[j].1 <= v@.len(),
    ensures
        r == (forall|k: int| from <= k < to ==> is_hex_group(#[trigger] ranges_of(v@, bounds@)[k])),
{
    let mut k = from;
    while k < to
        invariant
            from <= k <= to <= bounds@.len(),
            forall|j: int| 0 <= j < bounds@.len() ==> (#[trigger] bounds@[j]).0 <= bounds@[j].1 <= v@.len(),
            forall|j: int| from <= j < k ==> is_hex_group(#[trigger] ranges_of(v@, bounds@)[j]),
        decreases to - k,
    {
        let (a, b) = bounds[k];
        assert(ranges_of(v@, bounds@)[k as int] == v@.subrange(a as int, b as int));
        if !is_hex_group_in(v, a, b) {
            return false;
        }
        k = k + 1;
    }
    true
}

/// The colon-separated groups of `v[lo..hi]` as bounds; none when the range is empty.
fn group_bounds(v: &[char], lo: usize, hi: usize) -> (r: Vec<(usize, usize)>)
    requires
        lo <= hi <= v@.len(),
    ensures
        ranges_of(v@, r@) == groups_of(v@.subrange(lo as int, hi as int)),
        forall|k: int| 0 <= k < r@.len() ==> lo <= (#[trigger] r@[k]).0 <= r@[k].1 <= hi,
{
    if lo == hi {
        let r: Vec<(usize, usize)> = Vec::new();
        assert(ranges_of(v@, r@) =~= Seq::<Seq<char>>::empty());
        return r;
    }
    field_bounds(v, lo, hi, ':')
}

/// Whether `v[lo..hi]` is IPv6 notation.
pub fn is_ipv6_in(v: &[char], lo: usize, hi: usize) -> (r: bool)
    requires
        lo <= hi <= v@.len(),
    ensures
        r == is_ipv6_literal(v@.subrange(lo as int, hi as int)),
{
    let ghost s = v@.subrange(lo as int, hi as int);
    let i = find_double_colon_in(v, lo, hi);
    proof {
        lemma_find_double_colon(s);
    }
    if i == hi {
        let bounds = field_bounds(v, lo, hi, ':');
        let ghost f = fields(s, ':');
        if bounds.len() == 8 {
            return hex_groups_in(v, &bounds, 0, 8);
        }
        if bounds.len() == 7 {
            let head_ok = hex_groups_in(v, &bounds, 0, 6);
            assert(head_ok == all_hex_groups(f.take(6))) by {
                assert forall|k: int| 0 <= k < 6 implies f.take(6)[k] == f[k] by {}
            }
            if !head_ok {
                return false;
            }
            let (a, b) = bounds[6];
            assert(f[6] == v@.subrange(a as int, b as int));
            return is_ipv4_in(v, a, b);
        }
        return false;
    }
    assert(s.take(i - lo) =~= v@.subrange(lo as int, i as int));
    assert(s.skip(i - lo + 2) =~= v@.subrange(i + 2, hi as int));
    let head = group_bounds(v, lo, i);
    let tail = group_bounds(v, i + 2, hi);
    let ghost a = groups_of(s.take(i - lo));
    let ghost b = groups_of(s.skip(i - lo + 2));
    if !hex_groups_in(v, &head, 0, head.len()) {
        return false;
    }
    let n = tail.len();
    if n == 0 {
        assert(group_count(b) == 0);
        return head.len() <= 7;
    }
    if !hex_groups_in(v, &tail, 0, n - 1) {
        assert(!tail_groups_ok(b));
        return false;
    }
    let (la, lb) = tail[n - 1];
    assert(b[n - 1] == v@.subrange(la as int, lb as int));
    assert(b.last() == b[n - 1]);
    let last_v4 = is_ipv4_in(v, la, lb);
    let last_hex = is_hex_group_in(v, la, lb);
    if !last_v4 && !last_hex {
        assert(!tail_groups_ok(b));
        return false;
    }
    let extra: usize = if last_v4 { 1 } else { 0 };
    if n > 7 {
        return false;
    }
    n + extra <= 7 && head.len() <= 7 - (n + extra)
}

/// Whether `ip` parses as an IPv4 or IPv6 address.
pub fn is_valid_ip(ip: &str) -> (r: bool)
    ensures
        r == is_ip_literal(ip@),
{
    let v = chars_of(ip);
    let n = v.len();
    assert(v@.subrange(0, n as int) =~= v@);
    if is_ipv4_in(v.as_slice(), 0, n) {
        return true;
    }
    is_ipv6_in(v.as_slice(), 0, n)
}

/// Whether `c` is alphabetic or numeric in the sense of Unicode (the standard
/// library's `char::is_alphanumeric`).
pub uninterp spec fn spec_is_alphanumeric(c: char) -> bool;

/// Calls `char::is_alphanumeric`. Stated: the result is the Unicode property
/// named above, and among ASCII characters exactly the letters and digits
/// have it. Not stated: which non-ASCII characters have it.
#[verifier::external_body]
fn char_is_alphanumeric(c: char) -> (r: bool)
    ensures
        r == spec_is_alphanumeric(c),
        (c as u32) < 128 ==> (r == (('a' <= c <= 'z') || ('A' <= c <= 'Z') || ('0' <= c <= '9'))),
{
    c.is_alphanumeric()
}

/// A character of a single-word host name: a letter or digit, or a hyphen.
/// Among ASCII characters exactly `a`-`z`, `A`-`Z`, `0`-`9` and `-`;
/// beyond ASCII the Unicode alphanumeric characters.
pub open spec fn word_char(c: char) -> bool {
    if (c as u32) < 128 {
        ('a' <= c <= 'z') || ('A' <= c <= 'Z') || ('0' <= c <= '9') || c == '-'
    } else {
        spec_is_alphanumeric(c)
    }
}

/// A host name rather than an address: not empty, not an IP literal, and
/// either dotted or a single word of letters, digits and hyphens.
pub open spec fn is_hostname_text(s: Seq<char>) -> bool {
    s.len() > 0 && !is_ip_literal(s) && (s.contains('.') || forall|i: int|
        0 <= i < s.len() ==> word_char(#[trigger] s[i]))
}

/// Without two adjacent colons there is no double colon.
pub proof fn lemma_no_double_colon(s: Seq<char>)
    requires
        forall|i: int| 0 <= i < s.len() - 1 ==> !(#[trigger] s[i] == ':' && s[i + 1] == ':'),
    ensures
        find_double_colon(s) == s.len(),
    decreases s.len(),
{
    if s.len() >= 2 {
        assert forall|i: int| 0 <= i < s.drop_first().len() - 1 implies !(#[trigger] s.drop_first()[i] == ':'
            && s.drop_first()[i + 1] == ':') by {
            assert(s.drop_first()[i] == s[i + 1] && s.drop_first()[i + 1] == s[i + 2]);
        }
        lemma_no_double_colon(s.drop_first());
    }
}

/// Text with neither a dot nor a colon is no IP literal.
pub proof fn lemma_word_not_ip_literal(s: Seq<char>)
    requires
        forall|i: int| 0 <= i < s.len() ==> s[i] != '.' && s[i] != ':',
    ensures
        !is_ip_literal(s),
{
    lemma_find_char_is(s, '.', s.len() as int);
    lemma_find_char_is(s, ':', s.len() as int);
    lemma_no_double_colon(s);
    assert(fields(s, '.') == seq![s]);
    assert(fields(s, ':') == seq![s]);
}

/// Whether `s` looks like a host name rather than an IP address. Text with
/// neither a dot nor a colon is a host name exactly when it is a non-empty
/// word of letters, digits and hyphens.
pub fn is_hostname(s: &str) -> (r: bool)
    ensures
        r == is_hostname_text(s@),
        (forall|i: int| 0 <= i < s@.len() ==> s@[i] != '.' && s@[i] != ':') ==> (r == (s@.len() > 0
            && forall|i: int| 0 <= i < s@.len() ==> word_char(#[trigger] s@[i]))),
{
    proof {
        if forall|i: int| 0 <= i < s@.len() ==> s@[i] != '.' && s@[i] != ':' {
            lemma_word_not_ip_literal(s@);
            assert(!s@.contains('.'));
        }
    }
    let v = chars_of(s);
    if v.len() == 0 {
        return false;
    }
    if is_valid_ip(s) {
        return false;
    }
    let mut i: usize = 0;
    while i < v.len()
        invariant
            i <= v@.len(),
            v@ == s@,
            !is_ip_literal(s@),
            v@.len() > 0,
            forall|j: int| 0 <= j < i ==> v@[j] != '.',
        decreases v@.len() - i,
    {
        if v[i] == '.' {
            assert(s@.contains('.')) by {
                assert(s@[i as int] == '.');
            }
            return true;
        }
        i = i + 1;
    }
    assert(!s@.contains('.'));
    let mut k: usize = 0;
    while k < v.len()
        invariant
            k <= v@.len(),
            v@ == s@,
            !is_ip_literal(s@),
            !s@.contains('.'),
            v@.len() > 0,
            forall|j: int| 0 <= j < k ==> word_char(#[trigger] v@[j]),
        decreases v@.len() - k,
    {
        let c = v[k];
        let alnum = char_is_alphanumeric(c);
        if !(alnum || c == '-') {
            assert(!word_char(s@[k as int]));
            return false;
        }
        k = k + 1;
    }
    true
}

} // verus!
