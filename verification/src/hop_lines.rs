//! Hops read from the lines that the system trace commands print
//! (`tracert`, `traceroute`, `tracetcp`).
use vstd::prelude::*;

use crate::decimal::{is_float_in, is_float_literal};
use crate::ip::{is_ip_literal, is_valid_ip};
use crate::text::{
    chars_of, contains_char, contains_text, has_infix, parse_u32, parse_unsigned, split_whitespace,
    string_views, strip_brackets, text_eq, text_lines, lines_of, trim, trim_bounds, trimmed, without_brackets, words,
};

verus! {

/// One hop read from a line of trace output.
#[derive(Debug)]
pub struct ParsedHop {
    /// The hop's number (its TTL).
    pub hop_number: u32,
    /// The address that answered, when the line names one.
    pub ip: Option<String>,
    /// The round-trip times in milliseconds as printed, each a number that
    /// `str::parse::<f64>` reads; `None` for a probe that timed out.
    pub latencies: Vec<Option<String>>,
}

/// The text of an optional string.
pub open spec fn opt_view(o: Option<String>) -> Option<Seq<char>> {
    match o {
        Some(s) => Some(s@),
        None => None,
    }
}

/// The texts of a list of optional strings.
pub open spec fn latency_views(v: Seq<Option<String>>) -> Seq<Option<Seq<char>>> {
    v.map_values(|o: Option<String>| opt_view(o))
}

impl View for ParsedHop {
    type V = (u32, Option<Seq<char>>, Seq<Option<Seq<char>>>);

    open spec fn view(&self) -> Self::V {
        (self.hop_number, opt_view(self.ip), latency_views(self.latencies@))
    }
}

/// `ms`, possibly followed by dots and commas (a unit that ends a sentence).
pub open spec fn is_ms_word(s: Seq<char>) -> bool {
    s.len() >= 2 && s[0] == 'm' && s[1] == 's' && forall|j: int| 2 <= j < s.len() ==> is_dot_or_comma(#[trigger] s[j])
}

/// A full stop or a comma.
pub open spec fn is_dot_or_comma(c: char) -> bool {
    c == '.' || c == ','
}

/// The fields after the hop number of an ordinary line, read from index `i`
/// on, added to the latencies and address read so far: `*` is a probe that
/// timed out; the words of "Request timed out." are skipped; a number,
/// optionally followed by a unit word, is a latency; `<n` (as in `<1 ms`) is
/// the latency `n`; a lone `ms` is skipped; a word with a dot or colon that
/// is an IP address once its brackets are removed is the address (the last
/// such word wins); other words are skipped.
pub open spec fn scan_fields(
    parts: Seq<Seq<char>>,
    i: int,
    lats: Seq<Option<Seq<char>>>,
    ip: Option<Seq<char>>,
) -> (Seq<Option<Seq<char>>>, Option<Seq<char>>)
    decreases parts.len() - i,
{
    if i < 0 || i >= parts.len() {
        (lats, ip)
    } else {
        let p = parts[i];
        if p == "*"@ {
            scan_fields(parts, i + 1, lats.push(None), ip)
        } else if p == "Request"@ || p == "timed"@ || p == "out."@ {
            scan_fields(parts, i + 1, lats, ip)
        } else if is_float_literal(p) {
            if i + 1 < parts.len() && is_ms_word(parts[i + 1]) {
                scan_fields(parts, i + 2, lats.push(Some(p)), ip)
            } else {
                scan_fields(parts, i + 1, lats.push(Some(p)), ip)
            }
        } else if p.len() > 0 && p[0] == '<' && is_float_literal(p.drop_first()) {
            if i + 1 < parts.len() && parts[i + 1] == "ms"@ {
                scan_fields(parts, i + 2, lats.push(Some(p.drop_first())), ip)
            } else {
                scan_fields(parts, i + 1, lats.push(Some(p.drop_first())), ip)
            }
        } else if p == "ms"@ {
            scan_fields(parts, i + 1, lats, ip)
        } else if (p.contains('.') || p.contains(':')) && is_ip_literal(without_brackets(p)) {
            scan_fields(parts, i + 1, lats, Some(without_brackets(p)))
        } else {
            scan_fields(parts, i + 1, lats, ip)
        }
    }
}

/// The index of the first `w` among `parts` from `k` on, or the number of
/// parts.
pub open spec fn word_index(parts: Seq<Seq<char>>, w: Seq<char>, k: int) -> int
    decreases parts.len() - k,
{
    if k < 0 || k >= parts.len() {
        parts.len() as int
    } else if parts[k] == w {
        k
    } else {
        word_index(parts, w, k + 1)
    }
}

/// The unit word of a `traceroute` destination line: `ms`, or `ms.` where
/// it ends a sentence.
pub open spec fn is_strict_ms_word(s: Seq<char>) -> bool {
    s == "ms"@ || s == "ms."@
}

/// The index of the first unit word from `k` on, or the number of parts:
/// `ms` or `ms.`, or with `loose`, `ms` followed by any dots and commas.
pub open spec fn ms_index(parts: Seq<Seq<char>>, k: int, loose: bool) -> int
    decreases parts.len() - k,
{
    if k < 0 || k >= parts.len() {
        parts.len() as int
    } else if (if loose {
        is_ms_word(parts[k])
    } else {
        is_strict_ms_word(parts[k])
    }) {
        k
    } else {
        ms_index(parts, k + 1, loose)
    }
}

/// The latency of a "Destination Reached in N ms." line whose `Destination`
/// stands at `d`: the number just before the first unit word that follows
/// `Destination Reached in` (after at least one more word), when it is one.
/// Without `loose`, the word after `Reached` must be `in` and the unit word
/// `ms` or `ms.`.
pub open spec fn destination_latency(parts: Seq<Seq<char>>, d: int, loose: bool) -> Seq<Option<Seq<char>>> {
    let j = ms_index(parts, d + 4, loose);
    if (loose || (d + 3 < parts.len() && parts[d + 2] == "in"@)) && j < parts.len() && is_float_literal(
        parts[j - 1],
    ) {
        seq![Some(parts[j - 1])]
    } else {
        seq![]
    }
}

/// The last of the first `k` parts that contains a dot and is an IP address.
pub open spec fn last_dotted_ip(parts: Seq<Seq<char>>, k: int) -> Option<Seq<char>>
    decreases k,
{
    if k <= 0 || k > parts.len() {
        None
    } else if parts[k - 1].contains('.') && is_ip_literal(parts[k - 1]) {
        Some(parts[k - 1])
    } else {
        last_dotted_ip(parts, k - 1)
    }
}

/// A header or footer line of `tracert`/`traceroute`: blank, or with one of
/// their fixed phrases.
pub open spec fn is_trace_banner(line: Seq<char>) -> bool {
    trim(line).len() == 0 || has_infix(line, "Tracing route"@) || has_infix(line, "over a maximum"@)
        || has_infix(line, "Trace complete"@) || has_infix(line, "traceroute to"@) || has_infix(
        line,
        "hops max"@,
    ) || has_infix(line, "Tracing TCP"@) || has_infix(line, "on port"@)
}

/// A header or footer line of `tracetcp`: blank, or whose lower-case form
/// `lower` has one of the fixed phrases.
pub open spec fn is_tracetcp_banner(line: Seq<char>, lower: Seq<char>) -> bool {
    trim(line).len() == 0 || has_infix(lower, "tracing route"@) || has_infix(lower, "over a maximum"@)
        || has_infix(lower, "trace complete"@) || has_infix(lower, "traceroute to"@) || has_infix(
        lower,
        "hops max"@,
    ) || has_infix(lower, "tracing tcp"@) || has_infix(lower, "on port"@)
}

/// The latencies `l` brought to three by repeating the last one (an empty
/// list stays empty).
pub open spec fn pad_to_three(l: Seq<Option<Seq<char>>>) -> Seq<Option<Seq<char>>>
    decreases 3 - l.len(),
{
    if l.len() == 0 || l.len() >= 3 {
        l
    } else {
        pad_to_three(l.push(l.last()))
    }
}

/// The hop a line of `tracert` or `traceroute` describes: none for banners,
/// lines of fewer than two words and lines that do not start with a hop
/// number. A "Destination Reached" line gives its latency and its last dotted
/// address (and nothing when it has neither); any other line gives the
/// fields that `scan_fields` reads after the hop number.
pub open spec fn traceroute_line(line: Seq<char>) -> Option<(u32, Option<Seq<char>>, Seq<Option<Seq<char>>>)> {
    let parts = words(line);
    if is_trace_banner(line) || parts.len() < 2 {
        None
    } else {
        match parse_unsigned(parts[0], u32::MAX as nat) {
            None => None,
            Some(n) => {
                let d = word_index(parts, "Destination"@, 0);
                if d < parts.len() {
                    let lats = destination_latency(parts, d, false);
                    let ip = last_dotted_ip(parts, parts.len() as int);
                    if lats.len() > 0 || ip is Some {
                        Some((n as u32, ip, lats))
                    } else {
                        None
                    }
                } else {
                    let scanned = scan_fields(parts, 1, seq![], None);
                    Some((n as u32, scanned.1, scanned.0))
                }
            },
        }
    }
}

/// The hop a line of `tracetcp` describes, `lower` being the line in lower
/// case: as `traceroute_line`, with these differences: banners are found in
/// `lower`; the hop number must be 1 to 100; the latency of a destination
/// line needs no `in` and its unit may end a sentence; an ordinary line must
/// give a latency or an address, and its latencies are brought to three.
pub open spec fn tracetcp_line(line: Seq<char>, lower: Seq<char>) -> Option<
    (u32, Option<Seq<char>>, Seq<Option<Seq<char>>>),
> {
    let parts = words(line);
    if is_tracetcp_banner(line, lower) || parts.len() < 2 {
        None
    } else {
        match parse_unsigned(parts[0], u32::MAX as nat) {
            None => None,
            Some(n) => {
                if n == 0 || n > 100 {
                    None
                } else {
                    let d = word_index(parts, "Destination"@, 0);
                    if d < parts.len() {
                        let lats = destination_latency(parts, d, true);
                        let ip = last_dotted_ip(parts, parts.len() as int);
                        if lats.len() > 0 || ip is Some {
                            Some((n as u32, ip, lats))
                        } else {
                            None
                        }
                    } else {
                        let scanned = scan_fields(parts, 1, seq![], None);
                        if scanned.0.len() == 0 && scanned.1 is None {
                            None
                        } else {
                            Some((n as u32, scanned.1, pad_to_three(scanned.0)))
                        }
                    }
                }
            },
        }
    }
}

/// Whether `s` is a unit word: `ms` or `ms.`, or with `loose`, `ms`
/// followed by any dots and commas.
fn unit_word(s: &str, loose: bool) -> (r: bool)
    ensures
        r == (if loose {
            is_ms_word(s@)
        } else {
            is_strict_ms_word(s@)
        }),
{
    if !loose {
        return text_eq(s, "ms") || text_eq(s, "ms.");
    }
    let n = s.unicode_len();
    if n < 2 || s.get_char(0) != 'm' || s.get_char(1) != 's' {
        return false;
    }
    let mut i: usize = 2;
    while i < n
        invariant
            n == s@.len(),
            loose,
            2 <= i <= n,
            forall|j: int| 2 <= j < i ==> is_dot_or_comma(#[trigger] s@[j]),
        decreases n - i,
    {
        let c = s.get_char(i);
        if c != '.' && c != ',' {
            assert(!is_dot_or_comma(s@[i as int]));
            return false;
        }
        i = i + 1;
    }
    true
}

/// Whether `s` is a number that `str::parse::<f64>` reads.
fn is_float_text(s: &str) -> (r: bool)
    ensures
        r == is_float_literal(s@),
{
    let v = chars_of(s);
    assert(v@.subrange(0, v@.len() as int) =~= s@);
    is_float_in(v.as_slice(), 0, v.len())
}

/// The position of the first `w` among `parts`.
fn position_of(parts: &Vec<String>, w: &str) -> (r: usize)
    ensures
        r == word_index(string_views(parts@), w@, 0),
{
    let ghost pv = string_views(parts@);
    let mut k: usize = 0;
    while k < parts.len()
        invariant
            pv == string_views(parts@),
            k <= parts@.len(),
            word_index(pv, w@, 0) == word_index(pv, w@, k as int),
        decreases parts@.len() - k,
    {
        assert(pv[k as int] == parts@[k as int]@);
        if text_eq(parts[k].as_str(), w) {
            return k;
        }
        k = k + 1;
    }
    k
}

/// The latency of a destination line whose `Destination` stands at `d`.
fn destination_latency_of(parts: &Vec<String>, d: usize, loose: bool) -> (r: Vec<Option<String>>)
    requires
        d < parts@.len(),
    ensures
        latency_views(r@) == destination_latency(string_views(parts@), d as int, loose),
{
    let ghost pv = string_views(parts@);
    let n = parts.len();
    if !loose {
        if !(n - d > 3) {
            let out: Vec<Option<String>> = Vec::new();
            assert(latency_views(out@) =~= seq![]);
            return out;
        }
        assert(pv[d + 2] == parts@[d + 2]@);
        if !text_eq(parts[d + 2].as_str(), "in") {
            let out: Vec<Option<String>> = Vec::new();
            assert(latency_views(out@) =~= seq![]);
            return out;
        }
    }
    let mut j: usize = if n - d <= 4 {
        n
    } else {
        d + 4
    };
    while j < n
        invariant
            pv == string_views(parts@),
            n == parts@.len(),
            d < n,
            d + 4 <= j <= n || j == n,
            ms_index(pv, d + 4, loose) == ms_index(pv, j as int, loose),
        ensures
            d + 4 <= j <= n || j == n,
            ms_index(pv, d + 4, loose) == ms_index(pv, j as int, loose),
            j < n ==> (if loose {
                is_ms_word(pv[j as int])
            } else {
                is_strict_ms_word(pv[j as int])
            }),
        decreases n - j,
    {
        assert(pv[j as int] == parts@[j as int]@);
        if unit_word(parts[j].as_str(), loose) {
            break;
        }
        j = j + 1;
    }
    if j < n {
        assert(pv[j as int] == parts@[j as int]@);
        assert(pv[j - 1] == parts@[j - 1]@);
        if is_float_text(parts[j - 1].as_str()) {
            let mut out: Vec<Option<String>> = Vec::new();
            out.push(Some(parts[j - 1].clone()));
            assert(latency_views(out@) =~= seq![Some(pv[j - 1])]);
            return out;
        }
    }
    let out: Vec<Option<String>> = Vec::new();
    assert(latency_views(out@) =~= seq![]);
    out
}

/// The last part that contains a dot and is an IP address.
fn last_dotted_ip_of(parts: &Vec<String>) -> (r: Option<String>)
    ensures
        opt_view(r) == last_dotted_ip(string_views(parts@), parts@.len() as int),
{
    let ghost pv = string_views(parts@);
    let mut k = parts.len();
    while k > 0
        invariant
            pv == string_views(parts@),
            k <= parts@.len(),
            last_dotted_ip(pv, parts@.len() as int) == last_dotted_ip(pv, k as int),
        decreases k,
    {
        assert(pv[k - 1] == parts@[k - 1]@);
        let p = parts[k - 1].as_str();
        if contains_char(p, '.') && is_valid_ip(p) {
            return Some(parts[k - 1].clone());
        }
        k = k - 1;
    }
    None
}

/// The latencies and address of an ordinary line's fields after the hop
/// number.
fn scan_fields_of(parts: &Vec<String>) -> (r: (Vec<Option<String>>, Option<String>))
    ensures
        (latency_views(r.0@), opt_view(r.1)) == scan_fields(string_views(parts@), 1, seq![], None),
{
    let ghost pv = string_views(parts@);
    let n = parts.len();
    let mut lats: Vec<Option<String>> = Vec::new();
    let mut ip: Option<String> = None;
    let mut i: usize = 1;
    assert(latency_views(lats@) =~= seq![]);
    while i < n
        invariant
            pv == string_views(parts@),
            n == parts@.len(),
            1 <= i,
            scan_fields(pv, 1, seq![], None) == scan_fields(pv, i as int, latency_views(lats@), opt_view(ip)),
        decreases n - i,
    {
        let ghost before = latency_views(lats@);
        assert(pv[i as int] == parts@[i as int]@);
        let p = parts[i].as_str();
        if text_eq(p, "*") {
            lats.push(None);
            assert(latency_views(lats@) =~= before.push(None));
            i = i + 1;
        } else if text_eq(p, "Request") || text_eq(p, "timed") || text_eq(p, "out.") {
            i = i + 1;
        } else if is_float_text(p) {
            lats.push(Some(parts[i].clone()));
            assert(latency_views(lats@) =~= before.push(Some(pv[i as int])));
            if i + 1 < n && unit_word(parts[i + 1].as_str(), true) {
                assert(pv[i + 1] == parts@[i + 1]@);
                i = i + 2;
            } else {
                if i + 1 < n {
                    assert(pv[i + 1] == parts@[i + 1]@);
                }
                i = i + 1;
            }
        } else {
            let v = chars_of(p);
            let lt_num = v.len() > 0 && v[0] == '<' && is_float_in(v.as_slice(), 1, v.len());
            proof {
                if v@.len() > 0 {
                    assert(v@.subrange(1, v@.len() as int) =~= pv[i as int].drop_first());
                }
            }
            if lt_num {
                let num = p.substring_char(1, v.len()).to_owned();
                assert(num@ =~= pv[i as int].drop_first());
                lats.push(Some(num));
                assert(latency_views(lats@) =~= before.push(Some(pv[i as int].drop_first())));
                if i + 1 < n && text_eq(parts[i + 1].as_str(), "ms") {
                    assert(pv[i + 1] == parts@[i + 1]@);
                    i = i + 2;
                } else {
                    if i + 1 < n {
                        assert(pv[i + 1] == parts@[i + 1]@);
                    }
                    i = i + 1;
                }
            } else if text_eq(p, "ms") {
                i = i + 1;
            } else {
                if contains_char(p, '.') || contains_char(p, ':') {
                    let stripped = strip_brackets(p);
                    if is_valid_ip(stripped.as_str()) {
                        ip = Some(stripped);
                    }
                }
                i = i + 1;
            }
        }
    }
    (lats, ip)
}

/// Brings `lats` to three entries by repeating the last one.
fn pad_latencies(lats: &mut Vec<Option<String>>)
    ensures
        latency_views(final(lats)@) == pad_to_three(latency_views(old(lats)@)),
{
    while 0 < lats.len() && lats.len() < 3
        invariant
            pad_to_three(latency_views(old(lats)@)) == pad_to_three(latency_views(lats@)),
        decreases 3 - lats@.len(),
    {
        let ghost before = latency_views(lats@);
        let last = match &lats[lats.len() - 1] {
            Some(s) => Some(s.clone()),
            None => None,
        };
        assert(opt_view(last) == before.last());
        lats.push(last);
        assert(latency_views(lats@) =~= before.push(before.last()));
    }
}

/// The hop described by a line of `tracert`/`traceroute` output, if any.
pub fn parse_traceroute_line(line: &str) -> (r: Option<ParsedHop>)
    ensures
        match r {
            Some(h) => traceroute_line(line@) == Some(h@),
            None => traceroute_line(line@) is None,
        },
{
    let v = chars_of(line);
    let (a, b) = trim_bounds(v.as_slice(), 0, v.len());
    proof {
        assert(v@.subrange(0, v@.len() as int) =~= line@);
    }
    if a == b || contains_text(line, "Tracing route") || contains_text(line, "over a maximum") || contains_text(
        line,
        "Trace complete",
    ) || contains_text(line, "traceroute to") || contains_text(line, "hops max") || contains_text(
        line,
        "Tracing TCP",
    ) || contains_text(line, "on port") {
        return None;
    }
    let parts = split_whitespace(line);
    let ghost pv = string_views(parts@);
    if parts.len() < 2 {
        return None;
    }
    assert(pv[0] == parts@[0]@);
    let hop_number = match parse_u32(parts[0].as_str()) {
        Some(n) => n,
        None => {
            return None;
        },
    };
    let d = position_of(&parts, "Destination");
    if d < parts.len() {
        let latencies = destination_latency_of(&parts, d, false);
        let ip = last_dotted_ip_of(&parts);
        if latencies.len() > 0 || ip.is_some() {
            return Some(ParsedHop { hop_number, ip, latencies });
        }
        return None;
    }
    let (latencies, ip) = scan_fields_of(&parts);
    Some(ParsedHop { hop_number, ip, latencies })
}

/// The lower-case form of a text under the Unicode case tables.
pub uninterp spec fn spec_to_lowercase(s: Seq<char>) -> Seq<char>;

/// An ASCII text: every character below 128.
pub open spec fn is_ascii_text(s: Seq<char>) -> bool {
    forall|i: int| 0 <= i < s.len() ==> (#[trigger] s[i] as u32) < 128
}

/// The ASCII lower-case form of a character: `A`-`Z` become `a`-`z`, any
/// other character stays.
pub open spec fn ascii_lower(c: char) -> char {
    if 'A' <= c <= 'Z' {
        ((c as u32) + 32) as char
    } else {
        c
    }
}

/// The ASCII lower-case form of a text, character by character.
pub open spec fn ascii_lowercase(s: Seq<char>) -> Seq<char> {
    s.map_values(|c: char| ascii_lower(c))
}

/// Calls `str::to_lowercase`. Stated: the result is the lower-case form
/// named above, a function of the text alone; on ASCII text it maps `A`-`Z`
/// to `a`-`z` and keeps every other character. Not stated: the Unicode case
/// tables that decide it beyond ASCII.
#[verifier::external_body]
fn lowercase(s: &str) -> (r: String)
    ensures
        r@ == spec_to_lowercase(s@),
        is_ascii_text(s@) ==> r@ == ascii_lowercase(s@),
{
    s.to_lowercase()
}

/// The hop described by a line of `tracetcp` output whose lower-case form is
/// `line_lower`, if any.
pub fn parse_tracetcp_fields(line: &str, line_lower: &str) -> (r: Option<ParsedHop>)
    ensures
        match r {
            Some(h) => tracetcp_line(line@, line_lower@) == Some(h@),
            None => tracetcp_line(line@, line_lower@) is None,
        },
{
    let v = chars_of(line);
    let (a, b) = trim_bounds(v.as_slice(), 0, v.len());
    proof {
        assert(v@.subrange(0, v@.len() as int) =~= line@);
    }
    if a == b || contains_text(line_lower, "tracing route") || contains_text(line_lower, "over a maximum")
        || contains_text(line_lower, "trace complete") || contains_text(line_lower, "traceroute to")
        || contains_text(line_lower, "hops max") || contains_text(line_lower, "tracing tcp") || contains_text(
        line_lower,
        "on port",
    ) {
        return None;
    }
    let parts = split_whitespace(line);
    let ghost pv = string_views(parts@);
    if parts.len() < 2 {
        return None;
    }
    assert(pv[0] == parts@[0]@);
    let hop_number = match parse_u32(parts[0].as_str()) {
        Some(n) => n,
        None => {
            return None;
        },
    };
    if hop_number == 0 || hop_number > 100 {
        return None;
    }
    let d = position_of(&parts, "Destination");
    if d < parts.len() {
        let latencies = destination_latency_of(&parts, d, true);
        let ip = last_dotted_ip_of(&parts);
        if latencies.len() > 0 || ip.is_some() {
            return Some(ParsedHop { hop_number, ip, latencies });
        }
        return None;
    }
    let (mut latencies, ip) = scan_fields_of(&parts);
    if latencies.len() == 0 && ip.is_none() {
        return None;
    }
    pad_latencies(&mut latencies);
    Some(ParsedHop { hop_number, ip, latencies })
}

/// The hop described by a line of `tracetcp` output, if any. On an ASCII
/// line the lower-case form is the ASCII one.
pub fn parse_tracetcp_line(line: &str) -> (r: Option<ParsedHop>)
    ensures
        match r {
            Some(h) => tracetcp_line(line@, spec_to_lowercase(line@)) == Some(h@),
            None => tracetcp_line(line@, spec_to_lowercase(line@)) is None,
        },
        is_ascii_text(line@) ==> match r {
            Some(h) => tracetcp_line(line@, ascii_lowercase(line@)) == Some(h@),
            None => tracetcp_line(line@, ascii_lowercase(line@)) is None,
        },
{
    let lower = lowercase(line);
    parse_tracetcp_fields(line, lower.as_str())
}

/// The last of the first `k` parts that is an IP address once its brackets
/// are removed, without them.
pub open spec fn last_bracketed_ip(parts: Seq<Seq<char>>, k: int) -> Option<Seq<char>>
    decreases k,
{
    if k <= 0 || k > parts.len() {
        None
    } else if is_ip_literal(without_brackets(parts[k - 1])) {
        Some(without_brackets(parts[k - 1]))
    } else {
        last_bracketed_ip(parts, k - 1)
    }
}

/// The hop number and address of a line of trace output: it must have two
/// words or more, start with a hop number from 1 to 64, and have a word that
/// is an address once its brackets are removed (the last such word counts).
pub open spec fn hop_ip_line(line: Seq<char>) -> Option<(u32, Seq<char>)> {
    let t = trim(line);
    let parts = words(t);
    if t.len() == 0 || parts.len() < 2 {
        None
    } else {
        match parse_unsigned(parts[0], u32::MAX as nat) {
            None => None,
            Some(n) => if n == 0 || n > 64 {
                None
            } else {
                match last_bracketed_ip(parts, parts.len() as int) {
                    Some(ip) => Some((n as u32, ip)),
                    None => None,
                }
            },
        }
    }
}

/// The hop number and address a line of trace output names, if any.
pub fn parse_hop_ip(line: &str) -> (r: Option<(u32, String)>)
    ensures
        match r {
            Some((n, ip)) => hop_ip_line(line@) == Some((n, ip@)),
            None => hop_ip_line(line@) is None,
        },
{
    let t = trimmed(line);
    if t.unicode_len() == 0 {
        return None;
    }
    let parts = split_whitespace(t.as_str());
    let ghost pv = string_views(parts@);
    if parts.len() < 2 {
        return None;
    }
    assert(pv[0] == parts@[0]@);
    let hop_number = match parse_u32(parts[0].as_str()) {
        Some(n) => n,
        None => {
            return None;
        },
    };
    if hop_number == 0 || hop_number > 64 {
        return None;
    }
    let mut k = parts.len();
    while k > 0
        invariant
            pv == string_views(parts@),
            t@ == trim(line@),
            pv == words(t@),
            t@.len() > 0,
            pv.len() >= 2,
            parse_unsigned(pv[0], u32::MAX as nat) == Some(hop_number as nat),
            1 <= hop_number <= 64,
            k <= parts@.len(),
            last_bracketed_ip(pv, parts@.len() as int) == last_bracketed_ip(pv, k as int),
        decreases k,
    {
        assert(pv[k - 1] == parts@[k - 1]@);
        let clean = strip_brackets(parts[k - 1].as_str());
        if is_valid_ip(clean.as_str()) {
            return Some((hop_number, clean));
        }
        k = k - 1;
    }
    None
}

/// The hops named by each line of a trace command's output, in order.
pub open spec fn hops_in_output(lines: Seq<Seq<char>>) -> Seq<(u32, Seq<char>)>
    decreases lines.len(),
{
    if lines.len() == 0 {
        seq![]
    } else {
        let rest = hops_in_output(lines.drop_last());
        match hop_ip_line(lines.last()) {
            Some(h) => rest.push(h),
            None => rest,
        }
    }
}

/// The hops that the lines of `output` name, in order.
pub fn hops_from_output(output: &str) -> (r: Vec<(u32, String)>)
    ensures
        r@.map_values(|h: (u32, String)| (h.0, h.1@)) == hops_in_output(lines_of(output@)),
{
    let lines = text_lines(output);
    let ghost lv = string_views(lines@);
    let mut out: Vec<(u32, String)> = Vec::new();
    let mut k: usize = 0;
    assert(lv.take(0) =~= seq![]);
    while k < lines.len()
        invariant
            lv == string_views(lines@),
            lv == lines_of(output@),
            k <= lines@.len(),
            out@.map_values(|h: (u32, String)| (h.0, h.1@)) == hops_in_output(lv.take(k as int)),
        decreases lines@.len() - k,
    {
        assert(lv.take(k + 1).drop_last() =~= lv.take(k as int));
        assert(lv[k as int] == lines@[k as int]@);
        let ghost before = out@;
        match parse_hop_ip(lines[k].as_str()) {
            Some(h) => {
                out.push(h);
                assert(out@.map_values(|h: (u32, String)| (h.0, h.1@)) =~= before.map_values(
                    |h: (u32, String)| (h.0, h.1@),
                ).push((h.0, h.1@)));
            },
            None => {},
        }
        k = k + 1;
    }
    assert(lv.take(k as int) =~= lv);
    out
}

} // verus!
