//! Geolocation of hop addresses: which addresses are worth asking a public
//! service about, the cache of its answers, and the fields of an answer.
use vstd::prelude::*;

use crate::netinfo::{opt_string_view, starts_with};
use crate::text::text_eq;

verus! {

/// An IP address as plain numbers: the four octets of an IPv4 address or
/// the eight 16-bit segments of an IPv6 address.
#[derive(Debug, Clone, Copy)]
pub enum IpAddress {
    V4([u8; 4]),
    V6([u16; 8]),
}

/// An address that a public geolocation service knows nothing of. IPv4:
/// private (10/8, 172.16/12, 192.168/16), loopback (127/8), link-local
/// (169.254/16), broadcast, documentation (192.0.2/24, 198.51.100/24,
/// 203.0.113/24) or unspecified. IPv6: loopback (`::1`), unspecified
/// (`::`), unique-local (first segment 0xfc00 to 0xfdff) or link-local
/// (fe80::/10: first segment 0xfe80 to 0xfebf).
pub open spec fn is_private_address(ip: IpAddress) -> bool {
    match ip {
        IpAddress::V4(o) => {
            ||| o[0] == 10
            ||| (o[0] == 172 && 16 <= o[1] <= 31)
            ||| (o[0] == 192 && o[1] == 168)
            ||| o[0] == 127
            ||| (o[0] == 169 && o[1] == 254)
            ||| (o[0] == 255 && o[1] == 255 && o[2] == 255 && o[3] == 255)
            ||| (o[0] == 192 && o[1] == 0 && o[2] == 2)
            ||| (o[0] == 198 && o[1] == 51 && o[2] == 100)
            ||| (o[0] == 203 && o[1] == 0 && o[2] == 113)
            ||| (o[0] == 0 && o[1] == 0 && o[2] == 0 && o[3] == 0)
        },
        IpAddress::V6(s) => {
            let zero_head = s[0] == 0 && s[1] == 0 && s[2] == 0 && s[3] == 0 && s[4] == 0 && s[5] == 0 && s[6] == 0;
            ||| (zero_head && s[7] == 1)
            ||| (zero_head && s[7] == 0)
            ||| (0xfc00 <= s[0] <= 0xfdff)
            ||| (0xfe80 <= s[0] <= 0xfebf)
        },
    }
}

/// An IPv4 address as one 32-bit number, first octet highest.
pub open spec fn ipv4_number(o: [u8; 4]) -> int {
    o[0] as int * 16777216 + o[1] as int * 65536 + o[2] as int * 256 + o[3] as int
}

/// Whether the 32-bit address `v` lies in the block `base/bits`, given by
/// the block size `2^(32 - bits)`: both share the prefix above the size.
pub open spec fn in_v4_block(v: int, base: int, size: int) -> bool {
    v / size == base / size
}

/// Whether the first 16-bit segment `s0` of an IPv6 address lies in the
/// block whose first segment is `base`, given by the size of the block
/// within the first segment, `2^(16 - bits)`.
pub open spec fn in_v6_block(s0: int, base: int, size: int) -> bool {
    s0 / size == base / size
}

/// The private addresses are the listed blocks and nothing else: IPv4
/// 10.0.0.0/8, 172.16.0.0/12, 192.168.0.0/16, 127.0.0.0/8, 169.254.0.0/16,
/// 192.0.2.0/24, 198.51.100.0/24, 203.0.113.0/24, the broadcast and the
/// unspecified address; IPv6 `::1`, `::`, fc00::/7 and fe80::/10. In
/// particular 172.b.c.d is private exactly when `b` is 16 to 31.
pub proof fn lemma_private_blocks(ip: IpAddress)
    ensures
        match ip {
            IpAddress::V4(o) => {
                let v = ipv4_number(o);
                is_private_address(ip) == (in_v4_block(v, 0x0A000000, 16777216) || in_v4_block(v, 0xAC100000, 1048576)
                    || in_v4_block(v, 0xC0A80000, 65536) || in_v4_block(v, 0x7F000000, 16777216) || in_v4_block(
                    v,
                    0xA9FE0000,
                    65536,
                ) || v == 0xFFFFFFFF || in_v4_block(v, 0xC0000200, 256) || in_v4_block(v, 0xC6336400, 256)
                    || in_v4_block(v, 0xCB007100, 256) || v == 0)
            },
            IpAddress::V6(s) => {
                let zero_head = forall|k: int| 0 <= k < 7 ==> s[k] == 0;
                is_private_address(ip) == ((zero_head && (s[7] == 1 || s[7] == 0)) || in_v6_block(
                    s[0] as int,
                    0xfc00,
                    512,
                ) || in_v6_block(s[0] as int, 0xfe80, 64))
            },
        },
        ip matches IpAddress::V4(o) ==> (o[0] == 172 ==> (is_private_address(ip) == (o[1] / 16 == 1))),
{
    match ip {
        IpAddress::V4(o) => {
            let v = ipv4_number(o);
            let (a, b, c, d) = (o[0] as int, o[1] as int, o[2] as int, o[3] as int);
            assert(v / 16777216 == a) by (nonlinear_arith)
                requires
                    v == a * 16777216 + b * 65536 + c * 256 + d,
                    0 <= b < 256,
                    0 <= c < 256,
                    0 <= d < 256,
            ;
            assert(v / 1048576 == a * 16 + b / 16) by (nonlinear_arith)
                requires
                    v == a * 16777216 + b * 65536 + c * 256 + d,
                    0 <= b < 256,
                    0 <= c < 256,
                    0 <= d < 256,
            ;
            assert(v / 65536 == a * 256 + b) by (nonlinear_arith)
                requires
                    v == a * 16777216 + b * 65536 + c * 256 + d,
                    0 <= c < 256,
                    0 <= d < 256,
            ;
            assert(v / 256 == a * 65536 + b * 256 + c) by (nonlinear_arith)
                requires
                    v == a * 16777216 + b * 65536 + c * 256 + d,
                    0 <= d < 256,
            ;
            assert(v == 0xFFFFFFFF <==> (a == 255 && b == 255 && c == 255 && d == 255)) by (nonlinear_arith)
                requires
                    v == a * 16777216 + b * 65536 + c * 256 + d,
                    0 <= a < 256,
                    0 <= b < 256,
                    0 <= c < 256,
                    0 <= d < 256,
            ;
            assert(v == 0 <==> (a == 0 && b == 0 && c == 0 && d == 0)) by (nonlinear_arith)
                requires
                    v == a * 16777216 + b * 65536 + c * 256 + d,
                    0 <= a < 256,
                    0 <= b < 256,
                    0 <= c < 256,
                    0 <= d < 256,
            ;
        },
        IpAddress::V6(s) => {
            let zero_head = forall|k: int| 0 <= k < 7 ==> s[k] == 0;
            assert(zero_head == (s[0] == 0 && s[1] == 0 && s[2] == 0 && s[3] == 0 && s[4] == 0 && s[5] == 0 && s[6]
                == 0)) by {
                if s[0] == 0 && s[1] == 0 && s[2] == 0 && s[3] == 0 && s[4] == 0 && s[5] == 0 && s[6] == 0 {
                    assert forall|k: int| 0 <= k < 7 implies s[k] == 0 by {
                        if k == 0 {
                        } else if k == 1 {
                        } else if k == 2 {
                        } else if k == 3 {
                        } else if k == 4 {
                        } else if k == 5 {
                        } else {
                        }
                    }
                }
            }
        },
    }
}

/// Whether a geolocation service should be skipped for `ip`.
pub fn is_private(ip: &IpAddress) -> (r: bool)
    ensures
        r == is_private_address(*ip),
{
    match ip {
        IpAddress::V4(o) => {
            o[0] == 10 || (o[0] == 172 && 16 <= o[1] && o[1] <= 31) || (o[0] == 192 && o[1] == 168) || o[0] == 127 || (
            o[0] == 169 && o[1] == 254) || (o[0] == 255 && o[1] == 255 && o[2] == 255 && o[3] == 255) || (o[0] == 192
                && o[1] == 0 && o[2] == 2) || (o[0] == 198 && o[1] == 51 && o[2] == 100) || (o[0] == 203 && o[1] == 0
                && o[2] == 113) || (o[0] == 0 && o[1] == 0 && o[2] == 0 && o[3] == 0)
        },
        IpAddress::V6(s) => {
            let zero_head = s[0] == 0 && s[1] == 0 && s[2] == 0 && s[3] == 0 && s[4] == 0 && s[5] == 0 && s[6] == 0;
            (zero_head && s[7] == 1) || (zero_head && s[7] == 0) || (0xfc00 <= s[0] && s[0] <= 0xfdff) || (
            0xfe80 <= s[0] && s[0] <= 0xfebf)
        },
    }
}

/// The AS number and AS name of a service's `as` field: `AS15169 Google LLC`
/// gives `AS15169` and `Google LLC` (split at the first space; without a
/// space, all of it is the number); a field not starting with `AS` is a
/// name only.
pub open spec fn asn_parts(field: Option<Seq<char>>) -> (Option<Seq<char>>, Option<Seq<char>>) {
    match field {
        None => (None, None),
        Some(s) => if starts_with(s, "AS"@) {
            let sp = crate::text::find_char(s, ' ');
            if sp < s.len() {
                (Some(s.take(sp)), Some(s.skip(sp + 1)))
            } else {
                (Some(s), None)
            }
        } else {
            (None, Some(s))
        },
    }
}

/// Splits a service's `as` field into AS number and AS name.
pub fn split_asn(as_field: Option<&str>) -> (r: (Option<String>, Option<String>))
    ensures
        (opt_string_view(r.0), opt_string_view(r.1)) == asn_parts(
            match as_field {
                Some(s) => Some(s@),
                None => None,
            },
        ),
{
    match as_field {
        None => (None, None),
        Some(s) => {
            if crate::netinfo::text_starts_with(s, "AS") {
                let v = crate::text::chars_of(s);
                assert(v@.subrange(0, v@.len() as int) =~= s@);
                let sp = crate::text::find_char_in(v.as_slice(), 0, v.len(), ' ');
                if sp < v.len() {
                    let num = s.substring_char(0, sp).to_owned();
                    let name = s.substring_char(sp + 1, v.len()).to_owned();
                    assert(num@ =~= s@.take(sp as int));
                    assert(name@ =~= s@.skip(sp + 1));
                    (Some(num), Some(name))
                } else {
                    (Some(s.to_owned()), None)
                }
            } else {
                (None, Some(s.to_owned()))
            }
        },
    }
}

/// How long an answer of the service is kept, in seconds (a day).
pub const GEO_CACHE_TTL_SECS: i64 = 86400;

/// The index of the first entry for `key` from `from` on, or the number of
/// entries.
pub open spec fn key_index<V>(es: Seq<(Seq<char>, Option<V>, i64)>, key: Seq<char>, from: int) -> int
    decreases es.len() - from,
{
    if from < 0 || from >= es.len() {
        es.len() as int
    } else if es[from].0 == key {
        from
    } else {
        key_index(es, key, from + 1)
    }
}

/// What the cache holds for `key`: the answer (`None` for an address never
/// to be asked about) and when it expires, in seconds since the epoch.
pub open spec fn cached<V>(es: Seq<(Seq<char>, Option<V>, i64)>, key: Seq<char>) -> Option<(Option<V>, i64)> {
    let i = key_index(es, key, 0);
    if i < es.len() {
        Some((es[i].1, es[i].2))
    } else {
        None
    }
}

proof fn lemma_key_index_is<V>(es: Seq<(Seq<char>, Option<V>, i64)>, key: Seq<char>, from: int, m: int)
    requires
        0 <= from <= m <= es.len(),
        m < es.len() ==> es[m].0 == key,
        forall|j: int| from <= j < m ==> (#[trigger] es[j]).0 != key,
    ensures
        key_index(es, key, from) == m,
    decreases m - from,
{
    if from < m {
        lemma_key_index_is(es, key, from + 1, m);
    }
}

proof fn lemma_key_index_bounds<V>(es: Seq<(Seq<char>, Option<V>, i64)>, key: Seq<char>, from: int)
    requires
        0 <= from <= es.len(),
    ensures
        from <= key_index(es, key, from) <= es.len(),
        key_index(es, key, from) < es.len() ==> es[key_index(es, key, from)].0 == key,
        forall|j: int| from <= j < key_index(es, key, from) ==> (#[trigger] es[j]).0 != key,
    decreases es.len() - from,
{
    if from < es.len() && es[from].0 != key {
        lemma_key_index_bounds(es, key, from + 1);
    }
}

/// The cache of the geolocation service's answers, by address text.
pub struct GeoCache<V> {
    entries: Vec<(String, Option<V>, i64)>,
}

/// What a lookup of an address should do.
#[derive(Debug, Clone, Copy, PartialEq, Eq, Structural)]
pub enum GeoLookup {
    /// A cached answer that has not expired stands at this index.
    Cached(usize),
    /// The address is private: nothing to ask (the cache now says so).
    Skip,
    /// Ask the service, then record the answer.
    Query,
}

impl<V> GeoCache<V> {
    /// The entries as texts.
    pub closed spec fn view_entries(&self) -> Seq<(Seq<char>, Option<V>, i64)> {
        self.entries@.map_values(|e: (String, Option<V>, i64)| (e.0@, e.1, e.2))
    }

    /// An empty cache.
    pub fn new() -> (r: GeoCache<V>)
        ensures
            r.view_entries() == Seq::<(Seq<char>, Option<V>, i64)>::empty(),
    {
        let r = GeoCache { entries: Vec::new() };
        assert(r.view_entries() =~= Seq::<(Seq<char>, Option<V>, i64)>::empty());
        r
    }

    /// The index of the entry for `key`, if any.
    pub fn find(&self, key: &String) -> (r: Option<usize>)
        ensures
            match r {
                Some(i) => i == key_index(self.view_entries(), key@, 0) && i < self.view_entries().len(),
                None => key_index(self.view_entries(), key@, 0) == self.view_entries().len(),
            },
    {
        let ghost es = self.view_entries();
        let mut i: usize = 0;
        while i < self.entries.len()
            invariant
                es == self.view_entries(),
                i <= self.entries@.len(),
                forall|j: int| 0 <= j < i ==> (#[trigger] es[j]).0 != key@,
            decreases self.entries@.len() - i,
        {
            assert(es[i as int].0 == self.entries@[i as int].0@);
            if self.entries[i].0 == *key {
                proof {
                    lemma_key_index_is(es, key@, 0, i as int);
                }
                return Some(i);
            }
            i = i + 1;
        }
        proof {
            lemma_key_index_is(es, key@, 0, i as int);
        }
        None
    }

    /// The answer stored at index `i`.
    pub fn info_at(&self, i: usize) -> (r: &Option<V>)
        requires
            i < self.view_entries().len(),
        ensures
            *r == self.view_entries()[i as int].1,
    {
        &self.entries[i].1
    }

    /// Records `info` for `key` until `expires`, replacing what was there.
    /// Afterwards the cache holds exactly that for `key`, and what it held
    /// for every other key.
    pub fn insert(&mut self, key: String, info: Option<V>, expires: i64)
        ensures
            cached(final(self).view_entries(), key@) == Some((info, expires)),
            forall|k: Seq<char>| k != key@ ==> #[trigger] cached(final(self).view_entries(), k) == cached(
                old(self).view_entries(),
                k,
            ),
    {
        let ghost old_es = self.view_entries();
        let ghost kv = key@;
        match self.find(&key) {
            Some(i) => {
                self.entries.set(i, (key, info, expires));
                let ghost es = self.view_entries();
                assert(es =~= old_es.update(i as int, (kv, info, expires)));
                proof {
                    lemma_key_index_bounds(old_es, kv, 0);
                    lemma_key_index_is(es, kv, 0, i as int);
                    assert forall|k: Seq<char>| k != kv implies #[trigger] cached(es, k) == cached(old_es, k) by {
                        lemma_key_index_bounds(old_es, k, 0);
                        let m = key_index(old_es, k, 0);
                        if m < i {
                            lemma_key_index_is(es, k, 0, m);
                        } else {
                            assert(old_es[i as int].0 == kv);
                            if m < old_es.len() {
                                assert(es[m].0 == k);
                            }
                            lemma_key_index_is(es, k, 0, m);
                        }
                    }
                }
            },
            None => {
                self.entries.push((key, info, expires));
                let ghost es = self.view_entries();
                assert(es =~= old_es.push((kv, info, expires)));
                proof {
                    lemma_key_index_bounds(old_es, kv, 0);
                    lemma_key_index_is(es, kv, 0, old_es.len() as int);
                    assert forall|k: Seq<char>| k != kv implies #[trigger] cached(es, k) == cached(old_es, k) by {
                        lemma_key_index_bounds(old_es, k, 0);
                        let m = key_index(old_es, k, 0);
                        if m < old_es.len() {
                            lemma_key_index_is(es, k, 0, m);
                        } else {
                            lemma_key_index_is(es, k, 0, es.len() as int);
                        }
                    }
                }
            },
        }
    }

    /// The index of the answer for `key` when it has not expired at `now`.
    pub fn fresh(&self, key: &String, now: i64) -> (r: Option<usize>)
        ensures
            r == (if cached(self.view_entries(), key@) is Some && now < (cached(self.view_entries(), key@)->0).1 {
                Some(key_index(self.view_entries(), key@, 0) as usize)
            } else {
                None
            }),
    {
        match self.find(key) {
            Some(i) => {
                if now < self.entries[i].2 {
                    Some(i)
                } else {
                    None
                }
            },
            None => None,
        }
    }

    /// The first step of looking up `ip`, whose text is `key`, at time `now`
    /// (seconds since the epoch), as `lookup_outcome` decides; a private
    /// address is recorded as never to be asked about (until the end of
    /// time).
    pub fn begin_lookup(&mut self, ip: &IpAddress, key: &String, now: i64) -> (r: GeoLookup)
        ensures
            r == lookup_outcome(old(self).view_entries(), *ip, key@, now),
            r == GeoLookup::Skip ==> cached(final(self).view_entries(), key@) == Some((None::<V>, i64::MAX))
                && forall|k: Seq<char>| k != key@ ==> #[trigger] cached(final(self).view_entries(), k) == cached(
                old(self).view_entries(),
                k,
            ),
            r != GeoLookup::Skip ==> final(self).view_entries() == old(self).view_entries(),
    {
        if let Some(i) = self.fresh(key, now) {
            return GeoLookup::Cached(i);
        }
        if is_private(ip) {
            self.insert(key.clone(), None, i64::MAX);
            GeoLookup::Skip
        } else {
            GeoLookup::Query
        }
    }

    /// Records the service's answer for `key`, asked at `now`: kept for a
    /// day.
    pub fn finish_lookup(&mut self, key: String, info: Option<V>, now: i64)
        requires
            now <= i64::MAX - GEO_CACHE_TTL_SECS,
        ensures
            cached(final(self).view_entries(), key@) == Some((info, (now + GEO_CACHE_TTL_SECS) as i64)),
            forall|k: Seq<char>| k != key@ ==> #[trigger] cached(final(self).view_entries(), k) == cached(
                old(self).view_entries(),
                k,
            ),
    {
        self.insert(key, info, now + GEO_CACHE_TTL_SECS);
    }
}

/// What a lookup of `ip` (text `key`) at `now` does with the cache `es`: an
/// answer that has not expired is used; otherwise a private address is
/// skipped and any other is asked about.
pub open spec fn lookup_outcome<V>(es: Seq<(Seq<char>, Option<V>, i64)>, ip: IpAddress, key: Seq<char>, now: i64) -> GeoLookup {
    if cached(es, key) is Some && now < (cached(es, key)->0).1 {
        GeoLookup::Cached(key_index(es, key, 0) as usize)
    } else if is_private_address(ip) {
        GeoLookup::Skip
    } else {
        GeoLookup::Query
    }
}

/// What a read gives back of a write: once the service's answer for an
/// address is recorded at `now` (as `finish_lookup` records it), every
/// lookup of that address during the next day uses that answer instead of
/// asking again.
pub proof fn lemma_recorded_answer_used<V>(
    es: Seq<(Seq<char>, Option<V>, i64)>,
    ip: IpAddress,
    key: Seq<char>,
    info: Option<V>,
    now: i64,
    t: i64,
)
    requires
        now <= i64::MAX - GEO_CACHE_TTL_SECS,
        cached(es, key) == Some((info, (now + GEO_CACHE_TTL_SECS) as i64)),
        t < now + GEO_CACHE_TTL_SECS,
    ensures
        lookup_outcome(es, ip, key, t) == GeoLookup::Cached(key_index(es, key, 0) as usize),
        0 <= key_index(es, key, 0) < es.len(),
        es[key_index(es, key, 0)].1 == info,
{
    lemma_key_index_bounds(es, key, 0);
}

/// The entries of a batch answer that are kept: those with a non-empty
/// address and the status `success`, by index.
pub open spec fn kept_batch_entries(entries: Seq<(Option<Seq<char>>, Option<Seq<char>>)>) -> Seq<int>
    decreases entries.len(),
{
    if entries.len() == 0 {
        seq![]
    } else {
        let prev = kept_batch_entries(entries.drop_last());
        let e = entries.last();
        if (e.0 matches Some(q) && q.len() > 0) && e.1 == Some("success"@) {
            prev.push(entries.len() - 1)
        } else {
            prev
        }
    }
}

/// The entries of a batch answer worth keeping, given each entry's address
/// and status.
pub fn batch_entries_kept(entries: &Vec<(Option<String>, Option<String>)>) -> (r: Vec<usize>)
    ensures
        r@.map_values(|i: usize| i as int) == kept_batch_entries(
            entries@.map_values(|e: (Option<String>, Option<String>)| (opt_string_view(e.0), opt_string_view(e.1))),
        ),
{
    let ghost ev = entries@.map_values(
        |e: (Option<String>, Option<String>)| (opt_string_view(e.0), opt_string_view(e.1)),
    );
    let mut out: Vec<usize> = Vec::new();
    let mut i: usize = 0;
    assert(ev.take(0) =~= seq![]);
    assert(out@.map_values(|i: usize| i as int) =~= seq![]);
    while i < entries.len()
        invariant
            ev == entries@.map_values(
                |e: (Option<String>, Option<String>)| (opt_string_view(e.0), opt_string_view(e.1)),
            ),
            i <= entries@.len(),
            out@.map_values(|i: usize| i as int) == kept_batch_entries(ev.take(i as int)),
        decreases entries@.len() - i,
    {
        assert(ev.take(i + 1).drop_last() =~= ev.take(i as int));
        assert(ev[i as int] == (opt_string_view(entries@[i as int].0), opt_string_view(entries@[i as int].1)));
        let has_query = match &entries[i].0 {
            Some(q) => q.as_str().unicode_len() > 0,
            None => false,
        };
        let ok = match &entries[i].1 {
            Some(st) => text_eq(st.as_str(), "success"),
            None => false,
        };
        if has_query && ok {
            let ghost before = out@.map_values(|i: usize| i as int);
            out.push(i);
            assert(out@.map_values(|i: usize| i as int) =~= before.push(i as int));
        }
        i = i + 1;
    }
    assert(ev.take(i as int) =~= ev);
    out
}

/// The chunks of at most `size` of `n` items, as index bounds `[start,
/// end)`, in order (what `slice::chunks` yields).
pub fn chunks_of(n: usize, size: usize) -> (r: Vec<(usize, usize)>)
    requires
        size > 0,
    ensures
        r@.len() == (if n == 0 {
            0
        } else {
            (n - 1) / (size as int) + 1
        }),
        forall|k: int|
            0 <= k < r@.len() ==> (#[trigger] r@[k]).0 == k * size && r@[k].1 == (if (k + 1) * size <= n {
                (k + 1) * size
            } else {
                n as int
            }),
{
    let mut out: Vec<(usize, usize)> = Vec::new();
    let mut start: usize = 0;
    let mut k: usize = 0;
    while start < n
        invariant
            size > 0,
            start <= n,
            start < n ==> start == k * size,
            start == n ==> (k == 0 && n == 0) || ((k - 1) * size < n <= k * size),
            out@.len() == k,
            forall|j: int|
                0 <= j < k ==> (#[trigger] out@[j]).0 == j * size && out@[j].1 == (if (j + 1) * size <= n {
                    (j + 1) * size
                } else {
                    n as int
                }),
        decreases n - start,
    {
        let end = if n - start > size {
            start + size
        } else {
            n
        };
        assert((k + 1) * size == start + size) by (nonlinear_arith)
            requires
                start == k * size,
        ;
        assert(k <= start) by (nonlinear_arith)
            requires
                start == k * size,
                size > 0,
        ;
        out.push((start, end));
        start = end;
        k = k + 1;
    }
    proof {
        if n > 0 {
            lemma_chunk_count(n as int, size as int, k as int);
        }
    }
    out
}

proof fn lemma_chunk_count(n: int, size: int, k: int)
    requires
        size > 0,
        k > 0,
        (k - 1) * size < n <= k * size,
    ensures
        k == (n - 1) / size + 1,
{
    assert((n - 1) / size == k - 1) by (nonlinear_arith)
        requires
            size > 0,
            (k - 1) * size <= n - 1 < k * size,
    ;
}

} // verus!
