//! DNS record queries: which resolver lookups a record type needs, and the
//! records that their answers give. The lookups themselves are the caller's.
use vstd::prelude::*;

use crate::error::AppError;
use crate::models::DnsRecord;
use crate::text::{decimal_text, dec_digits};

verus! {

/// One resolver lookup of a query, with the record type it serves.
#[derive(Debug, Clone, Copy, PartialEq, Eq, Structural)]
pub enum DnsStep {
    /// Addresses, keeping the IPv4 ones (type A).
    A,
    /// Addresses, keeping the IPv6 ones (type AAAA).
    Aaaa,
    /// Canonical names.
    Cname,
    /// Mail exchangers.
    Mx,
    /// Name servers.
    Ns,
    /// Text records.
    Txt,
    /// Addresses of both kinds, for a query of all types.
    AnyIp,
    /// Canonical names, for a query of all types.
    AnyCname,
    /// Mail exchangers, for a query of all types.
    AnyMx,
    /// Name servers, for a query of all types.
    AnyNs,
}

/// What one lookup answered.
#[derive(Debug)]
pub enum DnsAnswer {
    /// The lookup failed; the resolver's description of why.
    Failed(String),
    /// The addresses found, each with whether it is IPv4 and its text, and
    /// the time to live of the response's first record.
    Addresses(Vec<(bool, String)>, Option<u32>),
    /// The records of a canonical-name lookup: the text of each record's
    /// data when it has any, and its time to live.
    Records(Vec<(Option<String>, u32)>),
    /// The mail exchangers, each with its name and preference, and the time
    /// to live of the response's first record.
    Exchangers(Vec<(String, u16)>, Option<u32>),
    /// The names or texts found, and the time to live of the response's
    /// first record.
    Texts(Vec<String>, Option<u32>),
}

/// The lookups that a record type needs, in order; `None` for a type that
/// is not supported.
pub open spec fn dns_plan_for(t: Seq<char>) -> Option<Seq<DnsStep>> {
    if t == "A"@ {
        Some(seq![DnsStep::A])
    } else if t == "AAAA"@ {
        Some(seq![DnsStep::Aaaa])
    } else if t == "CNAME"@ {
        Some(seq![DnsStep::Cname])
    } else if t == "MX"@ {
        Some(seq![DnsStep::Mx])
    } else if t == "NS"@ {
        Some(seq![DnsStep::Ns])
    } else if t == "TXT"@ {
        Some(seq![DnsStep::Txt])
    } else if t == "ALL"@ {
        Some(seq![DnsStep::AnyIp, DnsStep::AnyCname, DnsStep::AnyMx, DnsStep::AnyNs])
    } else {
        None
    }
}

/// The lookups for a record type; an unsupported type is an error.
pub fn dns_lookup_plan(record_type: &str) -> (r: Result<Vec<DnsStep>, AppError>)
    ensures
        match r {
            Ok(v) => dns_plan_for(record_type@) == Some(v@),
            Err(e) => dns_plan_for(record_type@) is None && (e matches AppError::DnsError(m) && m@
                == "不支持的记录类型: "@ + record_type@),
        },
{
    let owned = String::from_str(record_type);
    let mut v: Vec<DnsStep> = Vec::new();
    if owned == String::from_str("A") {
        v.push(DnsStep::A);
    } else if owned == String::from_str("AAAA") {
        v.push(DnsStep::Aaaa);
    } else if owned == String::from_str("CNAME") {
        v.push(DnsStep::Cname);
    } else if owned == String::from_str("MX") {
        v.push(DnsStep::Mx);
    } else if owned == String::from_str("NS") {
        v.push(DnsStep::Ns);
    } else if owned == String::from_str("TXT") {
        v.push(DnsStep::Txt);
    } else if owned == String::from_str("ALL") {
        v.push(DnsStep::AnyIp);
        v.push(DnsStep::AnyCname);
        v.push(DnsStep::AnyMx);
        v.push(DnsStep::AnyNs);
        assert(v@ =~= seq![DnsStep::AnyIp, DnsStep::AnyCname, DnsStep::AnyMx, DnsStep::AnyNs]);
        return Ok(v);
    } else {
        let mut m = String::from_str("不支持的记录类型: ");
        m.append(record_type);
        return Err(AppError::DnsError(m));
    }
    assert(v@ =~= seq![v@[0]]);
    Ok(v)
}

/// A record as texts: its type, its value and its time to live.
pub open spec fn record_view(r: DnsRecord) -> (Seq<char>, Seq<char>, u32) {
    (r.record_type@, r.value@, r.ttl)
}

/// The records as texts.
pub open spec fn record_views(v: Seq<DnsRecord>) -> Seq<(Seq<char>, Seq<char>, u32)> {
    v.map_values(|r: DnsRecord| record_view(r))
}

/// The addresses of an answer as (is IPv4, text) pairs.
pub open spec fn address_views(addrs: Seq<(bool, String)>) -> Seq<(bool, Seq<char>)> {
    addrs.map_values(|a: (bool, String)| (a.0, a.1@))
}

/// The address records of `addrs` that are kept (IPv4 ones when `v4`, IPv6
/// ones when `v6`), typed A or AAAA, each with the time to live `ttl`.
pub open spec fn address_records(addrs: Seq<(bool, Seq<char>)>, v4: bool, v6: bool, ttl: u32) -> Seq<
    (Seq<char>, Seq<char>, u32),
>
    decreases addrs.len(),
{
    if addrs.len() == 0 {
        seq![]
    } else {
        let prev = address_records(addrs.drop_last(), v4, v6, ttl);
        let a = addrs.last();
        if (a.0 && v4) || (!a.0 && v6) {
            prev.push(
                (
                    if a.0 {
                        "A"@
                    } else {
                        "AAAA"@
                    },
                    a.1,
                    ttl,
                ),
            )
        } else {
            prev
        }
    }
}

/// The canonical-name records of those that have data.
pub open spec fn cname_records(recs: Seq<(Option<Seq<char>>, u32)>) -> Seq<(Seq<char>, Seq<char>, u32)>
    decreases recs.len(),
{
    if recs.len() == 0 {
        seq![]
    } else {
        let prev = cname_records(recs.drop_last());
        match recs.last().0 {
            Some(d) => prev.push(("CNAME"@, d, recs.last().1)),
            None => prev,
        }
    }
}

/// The mail-exchanger records: each value is the name, then the preference
/// in brackets after `label`.
pub open spec fn mx_records(mx: Seq<(Seq<char>, u16)>, label: Seq<char>, ttl: u32) -> Seq<(Seq<char>, Seq<char>, u32)>
    decreases mx.len(),
{
    if mx.len() == 0 {
        seq![]
    } else {
        let prev = mx_records(mx.drop_last(), label, ttl);
        let m = mx.last();
        prev.push(("MX"@, m.0 + " ("@ + label + dec_digits(m.1 as nat) + ")"@, ttl))
    }
}

/// Records of one type `t` whose values are the texts `names`.
pub open spec fn text_records(names: Seq<Seq<char>>, t: Seq<char>, ttl: u32) -> Seq<(Seq<char>, Seq<char>, u32)>
    decreases names.len(),
{
    if names.len() == 0 {
        seq![]
    } else {
        text_records(names.drop_last(), t, ttl).push((t, names.last(), ttl))
    }
}

/// The texts of the strings.
pub open spec fn texts_of(v: Seq<String>) -> Seq<Seq<char>> {
    v.map_values(|s: String| s@)
}

/// The records that a lookup's answer gives, or the message of the error
/// that ends the query. A failed address lookup of an A or AAAA query is an
/// error; other failures give no records, as does an answer that does not
/// fit the lookup. A missing time to live counts as zero.
pub open spec fn step_records(step: DnsStep, answer: DnsAnswer) -> Result<Seq<(Seq<char>, Seq<char>, u32)>, Seq<char>> {
    match answer {
        DnsAnswer::Failed(e) => match step {
            DnsStep::A => Err("A 记录查询失败: "@ + e@),
            DnsStep::Aaaa => Err("AAAA 记录查询失败: "@ + e@),
            _ => Ok(seq![]),
        },
        DnsAnswer::Addresses(addrs, ttl) => {
            let av = address_views(addrs@);
            let t = match ttl {
                Some(x) => x,
                None => 0,
            };
            match step {
                DnsStep::A => Ok(address_records(av, true, false, t)),
                DnsStep::Aaaa => Ok(address_records(av, false, true, t)),
                DnsStep::AnyIp => Ok(address_records(av, true, true, t)),
                _ => Ok(seq![]),
            }
        },
        DnsAnswer::Records(recs) => match step {
            DnsStep::Cname | DnsStep::AnyCname => Ok(
                cname_records(
                    recs@.map_values(
                        |r: (Option<String>, u32)|
                            (
                                match r.0 {
                                    Some(d) => Some(d@),
                                    None => None,
                                },
                                r.1,
                            ),
                    ),
                ),
            ),
            _ => Ok(seq![]),
        },
        DnsAnswer::Exchangers(mx, ttl) => {
            let mv = mx@.map_values(|m: (String, u16)| (m.0@, m.1));
            let t = match ttl {
                Some(x) => x,
                None => 0,
            };
            match step {
                DnsStep::Mx => Ok(mx_records(mv, "优先级: "@, t)),
                DnsStep::AnyMx => Ok(mx_records(mv, "pri: "@, t)),
                _ => Ok(seq![]),
            }
        },
        DnsAnswer::Texts(names, ttl) => {
            let t = match ttl {
                Some(x) => x,
                None => 0,
            };
            match step {
                DnsStep::Ns | DnsStep::AnyNs => Ok(text_records(texts_of(names@), "NS"@, t)),
                DnsStep::Txt => Ok(text_records(texts_of(names@), "TXT"@, t)),
                _ => Ok(seq![]),
            }
        },
    }
}

/// Every address record comes from a kept address: typed A for an IPv4
/// address and AAAA for an IPv6 one, with that address as its value; and
/// every kept address gives such a record.
pub proof fn lemma_address_records_are_the_kept_addresses(addrs: Seq<(bool, Seq<char>)>, v4: bool, v6: bool, ttl: u32)
    ensures
        forall|k: int|
            #![trigger address_records(addrs, v4, v6, ttl)[k]]
            0 <= k < address_records(addrs, v4, v6, ttl).len() ==> exists|i: int|
                0 <= i < addrs.len() && ((#[trigger] addrs[i].0 && v4) || (!addrs[i].0 && v6)) && address_records(
                    addrs,
                    v4,
                    v6,
                    ttl,
                )[k] == (
                    if addrs[i].0 {
                        "A"@
                    } else {
                        "AAAA"@
                    },
                    addrs[i].1,
                    ttl,
                ),
        forall|i: int|
            0 <= i < addrs.len() && ((#[trigger] addrs[i].0 && v4) || (!addrs[i].0 && v6)) ==> address_records(
                addrs,
                v4,
                v6,
                ttl,
            ).contains(
                (
                    if addrs[i].0 {
                        "A"@
                    } else {
                        "AAAA"@
                    },
                    addrs[i].1,
                    ttl,
                ),
            ),
    decreases addrs.len(),
{
    if addrs.len() > 0 {
        let p = addrs.drop_last();
        lemma_address_records_are_the_kept_addresses(p, v4, v6, ttl);
        let prev = address_records(p, v4, v6, ttl);
        let cur = address_records(addrs, v4, v6, ttl);
        let a = addrs.last();
        let kept = (a.0 && v4) || (!a.0 && v6);
        let rec = (
            if a.0 {
                "A"@
            } else {
                "AAAA"@
            },
            a.1,
            ttl,
        );
        assert(cur == (if kept {
            prev.push(rec)
        } else {
            prev
        }));
        assert forall|k: int| #![trigger cur[k]] 0 <= k < cur.len() implies exists|i: int|
            0 <= i < addrs.len() && ((#[trigger] addrs[i].0 && v4) || (!addrs[i].0 && v6)) && cur[k] == (
                if addrs[i].0 {
                    "A"@
                } else {
                    "AAAA"@
                },
                addrs[i].1,
                ttl,
            ) by {
            if k < prev.len() {
                assert(cur[k] == prev[k]);
                let i = choose|i: int|
                    0 <= i < p.len() && ((#[trigger] p[i].0 && v4) || (!p[i].0 && v6)) && prev[k] == (
                        if p[i].0 {
                            "A"@
                        } else {
                            "AAAA"@
                        },
                        p[i].1,
                        ttl,
                    );
                assert(addrs[i] == p[i]);
            } else {
                assert(addrs[addrs.len() - 1] == a);
                assert(cur[k] == rec);
            }
        }
        assert forall|i: int| 0 <= i < addrs.len() && ((#[trigger] addrs[i].0 && v4) || (!addrs[i].0 && v6)) implies cur.contains(
            (
                if addrs[i].0 {
                    "A"@
                } else {
                    "AAAA"@
                },
                addrs[i].1,
                ttl,
            ),
        ) by {
            if i < p.len() {
                assert(addrs[i] == p[i]);
                let r = (
                    if p[i].0 {
                        "A"@
                    } else {
                        "AAAA"@
                    },
                    p[i].1,
                    ttl,
                );
                assert(prev.contains(r));
                let k = choose|k: int| 0 <= k < prev.len() && prev[k] == r;
                assert(cur[k] == r);
            } else {
                assert(cur[cur.len() - 1] == rec);
            }
        }
    }
}

/// The record type of an address family: A for IPv4, AAAA for IPv6.
pub open spec fn family_type(v4: bool) -> Seq<char> {
    if v4 {
        "A"@
    } else {
        "AAAA"@
    }
}

/// The address records of one family: the IPv4 addresses when `v4`, else
/// the IPv6 ones.
pub open spec fn family_records(av: Seq<(bool, Seq<char>)>, v4: bool, tt: u32) -> Seq<(Seq<char>, Seq<char>, u32)> {
    address_records(av, v4, !v4, tt)
}

/// The records of the addresses of one family (IPv4 when `v4`, else IPv6):
/// each is such an address typed A or AAAA, and each such address gives one.
pub proof fn lemma_kept_family(av: Seq<(bool, Seq<char>)>, v4: bool, tt: u32)
    ensures
        forall|k: int|
            #![trigger family_records(av, v4, tt)[k]]
            0 <= k < family_records(av, v4, tt).len() ==> exists|i: int|
                0 <= i < av.len() && (#[trigger] av[i]).0 == v4 && family_records(av, v4, tt)[k].0 == family_type(v4)
                    && family_records(av, v4, tt)[k].1 == av[i].1 && family_records(av, v4, tt)[k].2 == tt,
        forall|i: int|
            0 <= i < av.len() && (#[trigger] av[i]).0 == v4 ==> family_records(av, v4, tt).contains(
                (family_type(v4), av[i].1, tt),
            ),
    decreases av.len(),
{
    if av.len() > 0 {
        let p = av.drop_last();
        lemma_kept_family(p, v4, tt);
        let prev = family_records(p, v4, tt);
        let recs = family_records(av, v4, tt);
        let ty = family_type(v4);
        let a = av.last();
        assert(av[av.len() - 1] == a);
        assert(recs == address_records(av, v4, !v4, tt));
        assert(prev == address_records(p, v4, !v4, tt));
        if a.0 == v4 {
            assert(recs == prev.push((ty, a.1, tt)));
        } else {
            assert(recs == prev);
        }
        assert forall|k: int| #![trigger recs[k]] 0 <= k < recs.len() implies exists|i: int|
            0 <= i < av.len() && (#[trigger] av[i]).0 == v4 && recs[k].0 == ty && recs[k].1 == av[i].1 && recs[k].2 == tt by {
            if k < prev.len() {
                assert(recs[k] == prev[k]);
                let i = choose|i: int|
                    0 <= i < p.len() && (#[trigger] p[i]).0 == v4 && prev[k].0 == ty && prev[k].1 == p[i].1 && prev[k].2
                        == tt;
                assert(av[i] == p[i]);
            } else {
                assert(recs[k] == (ty, a.1, tt));
            }
        }
        assert forall|i: int| 0 <= i < av.len() && (#[trigger] av[i]).0 == v4 implies recs.contains((ty, av[i].1, tt)) by {
            if i < p.len() {
                assert(av[i] == p[i]);
                assert(prev.contains((ty, p[i].1, tt)));
                let k = choose|k: int| 0 <= k < prev.len() && prev[k] == (ty, p[i].1, tt);
                assert(recs[k] == prev[k]);
            } else {
                assert(recs[recs.len() - 1] == (ty, a.1, tt));
            }
        }
    }
}

/// Every canonical-name record is typed CNAME.
pub proof fn lemma_cname_records_typed(recs: Seq<(Option<Seq<char>>, u32)>)
    ensures
        forall|k: int| 0 <= k < cname_records(recs).len() ==> (#[trigger] cname_records(recs)[k]).0 == "CNAME"@,
    decreases recs.len(),
{
    if recs.len() > 0 {
        let prev = cname_records(recs.drop_last());
        let cur = cname_records(recs);
        lemma_cname_records_typed(recs.drop_last());
        assert forall|k: int| 0 <= k < cur.len() implies (#[trigger] cur[k]).0 == "CNAME"@ by {
            if k < prev.len() {
                assert(cur[k] == prev[k]);
            }
        }
    }
}

/// Every mail-exchanger record is typed MX.
pub proof fn lemma_mx_records_typed(mx: Seq<(Seq<char>, u16)>, label: Seq<char>, ttl: u32)
    ensures
        forall|k: int| 0 <= k < mx_records(mx, label, ttl).len() ==> (#[trigger] mx_records(mx, label, ttl)[k]).0 == "MX"@,
    decreases mx.len(),
{
    if mx.len() > 0 {
        let prev = mx_records(mx.drop_last(), label, ttl);
        let cur = mx_records(mx, label, ttl);
        lemma_mx_records_typed(mx.drop_last(), label, ttl);
        assert forall|k: int| 0 <= k < cur.len() implies (#[trigger] cur[k]).0 == "MX"@ by {
            if k < prev.len() {
                assert(cur[k] == prev[k]);
            }
        }
    }
}

/// Every record of `text_records` has the type it was given.
pub proof fn lemma_text_records_typed(names: Seq<Seq<char>>, t: Seq<char>, ttl: u32)
    ensures
        forall|k: int| 0 <= k < text_records(names, t, ttl).len() ==> (#[trigger] text_records(names, t, ttl)[k]).0 == t,
    decreases names.len(),
{
    if names.len() > 0 {
        let prev = text_records(names.drop_last(), t, ttl);
        let cur = text_records(names, t, ttl);
        lemma_text_records_typed(names.drop_last(), t, ttl);
        assert forall|k: int| 0 <= k < cur.len() implies (#[trigger] cur[k]).0 == t by {
            if k < prev.len() {
                assert(cur[k] == prev[k]);
            }
        }
    }
}

/// A query of one record type T (A, AAAA, CNAME, MX, NS or TXT) makes one
/// lookup, and every record that lookup gives, whatever the resolver
/// answered, has the type T. On an address answer an A query gives the
/// records of the IPv4 addresses and an AAAA query those of the IPv6 ones
/// (which `lemma_kept_family` describes: exactly the addresses of that
/// family, each as a record of its type).
pub proof fn lemma_single_type_query_records(t: Seq<char>, answer: DnsAnswer)
    requires
        t == "A"@ || t == "AAAA"@ || t == "CNAME"@ || t == "MX"@ || t == "NS"@ || t == "TXT"@,
    ensures
        dns_plan_for(t) matches Some(plan) && plan.len() == 1 && (step_records(plan[0], answer) matches Ok(recs)
            ==> forall|k: int| 0 <= k < recs.len() ==> (#[trigger] recs[k]).0 == t),
        answer matches DnsAnswer::Addresses(addrs, ttl) ==> ((t == "A"@ || t == "AAAA"@) ==> (dns_plan_for(t) matches Some(
            plan,
        ) && step_records(plan[0], answer) == Ok::<Seq<(Seq<char>, Seq<char>, u32)>, Seq<char>>(
            family_records(
                address_views(addrs@),
                t == "A"@,
                match ttl {
                    Some(x) => x,
                    None => 0,
                },
            ),
        ))),
{
    reveal_strlit("A");
    reveal_strlit("AAAA");
    reveal_strlit("CNAME");
    reveal_strlit("MX");
    reveal_strlit("NS");
    reveal_strlit("TXT");
    reveal_strlit("ALL");
    let plan = dns_plan_for(t)->0;
    match answer {
        DnsAnswer::Addresses(addrs, ttl) => {
            let av = address_views(addrs@);
            let tt = match ttl {
                Some(x) => x,
                None => 0,
            };
            lemma_address_records_are_the_kept_addresses(av, true, false, tt);
            lemma_address_records_are_the_kept_addresses(av, false, true, tt);
            lemma_kept_family(av, true, tt);
            lemma_kept_family(av, false, tt);
            assert(family_records(av, true, tt) == address_records(av, true, false, tt));
            assert(family_records(av, false, tt) == address_records(av, false, true, tt));
            assert(family_type(true) == "A"@);
            assert(family_type(false) == "AAAA"@);
        },
        DnsAnswer::Records(recs) => {
            lemma_cname_records_typed(
                recs@.map_values(
                    |r: (Option<String>, u32)|
                        (
                            match r.0 {
                                Some(d) => Some(d@),
                                None => None,
                            },
                            r.1,
                        ),
                ),
            );
        },
        DnsAnswer::Exchangers(mx, ttl) => {
            let mv = mx@.map_values(|m: (String, u16)| (m.0@, m.1));
            let tt = match ttl {
                Some(x) => x,
                None => 0,
            };
            lemma_mx_records_typed(mv, "优先级: "@, tt);
        },
        DnsAnswer::Texts(names, ttl) => {
            let tt = match ttl {
                Some(x) => x,
                None => 0,
            };
            lemma_text_records_typed(texts_of(names@), "NS"@, tt);
            lemma_text_records_typed(texts_of(names@), "TXT"@, tt);
        },
        DnsAnswer::Failed(_) => {},
    }
}

/// The address records of `addrs` that are kept.
fn address_records_of(addrs: &Vec<(bool, String)>, v4: bool, v6: bool, ttl: u32, out: &mut Vec<DnsRecord>)
    ensures
        record_views(final(out)@) == record_views(old(out)@) + address_records(
            address_views(addrs@),
            v4,
            v6,
            ttl,
        ),
{
    let ghost av = address_views(addrs@);
    let ghost start = record_views(out@);
    let mut i: usize = 0;
    assert(start + seq![] =~= start);
    while i < addrs.len()
        invariant
            av == address_views(addrs@),
            i <= addrs@.len(),
            record_views(out@) == start + address_records(av.take(i as int), v4, v6, ttl),
        decreases addrs@.len() - i,
    {
        assert(av.take(i + 1).drop_last() =~= av.take(i as int));
        assert(av[i as int] == (addrs@[i as int].0, addrs@[i as int].1@));
        let is_v4 = addrs[i].0;
        if (is_v4 && v4) || (!is_v4 && v6) {
            let kind = if is_v4 {
                String::from_str("A")
            } else {
                String::from_str("AAAA")
            };
            let ghost before = record_views(out@);
            out.push(DnsRecord { record_type: kind, value: addrs[i].1.clone(), ttl });
            assert(record_views(out@) =~= before.push((kind@, addrs@[i as int].1@, ttl)));
        }
        i = i + 1;
    }
    assert(av.take(i as int) =~= av);
}

/// The canonical-name records of those that have data.
fn cname_records_of(recs: &Vec<(Option<String>, u32)>, out: &mut Vec<DnsRecord>)
    ensures
        record_views(final(out)@) == record_views(old(out)@) + cname_records(
            recs@.map_values(
                |r: (Option<String>, u32)|
                    (
                        match r.0 {
                            Some(d) => Some(d@),
                            None => None,
                        },
                        r.1,
                    ),
            ),
        ),
{
    let ghost rv = recs@.map_values(
        |r: (Option<String>, u32)|
            (
                match r.0 {
                    Some(d) => Some(d@),
                    None => None,
                },
                r.1,
            ),
    );
    let ghost start = record_views(out@);
    let mut i: usize = 0;
    assert(start + seq![] =~= start);
    while i < recs.len()
        invariant
            rv == recs@.map_values(
                |r: (Option<String>, u32)|
                    (
                        match r.0 {
                            Some(d) => Some(d@),
                            None => None,
                        },
                        r.1,
                    ),
            ),
            i <= recs@.len(),
            record_views(out@) == start + cname_records(rv.take(i as int)),
        decreases recs@.len() - i,
    {
        assert(rv.take(i + 1).drop_last() =~= rv.take(i as int));
        let ghost ri = rv[i as int];
        match &recs[i].0 {
            Some(d) => {
                let ghost before = record_views(out@);
                let kind = String::from_str("CNAME");
                out.push(DnsRecord { record_type: kind, value: d.clone(), ttl: recs[i].1 });
                assert(record_views(out@) =~= before.push(("CNAME"@, d@, recs@[i as int].1)));
            },
            None => {},
        }
        i = i + 1;
    }
    assert(rv.take(i as int) =~= rv);
}

/// The mail-exchanger records.
fn mx_records_of(mx: &Vec<(String, u16)>, label: &str, ttl: u32, out: &mut Vec<DnsRecord>)
    ensures
        record_views(final(out)@) == record_views(old(out)@) + mx_records(
            mx@.map_values(|m: (String, u16)| (m.0@, m.1)),
            label@,
            ttl,
        ),
{
    proof {
        reveal_strlit(" (");
        reveal_strlit(")");
    }
    let ghost mv = mx@.map_values(|m: (String, u16)| (m.0@, m.1));
    let ghost start = record_views(out@);
    let mut i: usize = 0;
    assert(start + seq![] =~= start);
    while i < mx.len()
        invariant
            mv == mx@.map_values(|m: (String, u16)| (m.0@, m.1)),
            i <= mx@.len(),
            record_views(out@) == start + mx_records(mv.take(i as int), label@, ttl),
        decreases mx@.len() - i,
    {
        assert(mv.take(i + 1).drop_last() =~= mv.take(i as int));
        let mut value = mx[i].0.clone();
        value.append(" (");
        value.append(label);
        value.append(decimal_text(mx[i].1 as u64).as_str());
        value.append(")");
        let ghost before = record_views(out@);
        out.push(DnsRecord { record_type: String::from_str("MX"), value, ttl });
        assert(record_views(out@) =~= before.push(
            ("MX"@, mx@[i as int].0@ + " ("@ + label@ + dec_digits(mx@[i as int].1 as nat) + ")"@, ttl),
        ));
        i = i + 1;
    }
    assert(mv.take(i as int) =~= mv);
}

/// Records of type `t` whose values are `names`.
fn text_records_of(names: &Vec<String>, t: &str, ttl: u32, out: &mut Vec<DnsRecord>)
    ensures
        record_views(final(out)@) == record_views(old(out)@) + text_records(texts_of(names@), t@, ttl),
{
    let ghost nv = texts_of(names@);
    let ghost start = record_views(out@);
    let mut i: usize = 0;
    assert(start + seq![] =~= start);
    while i < names.len()
        invariant
            nv == texts_of(names@),
            i <= names@.len(),
            record_views(out@) == start + text_records(nv.take(i as int), t@, ttl),
        decreases names@.len() - i,
    {
        assert(nv.take(i + 1).drop_last() =~= nv.take(i as int));
        assert(nv[i as int] == names@[i as int]@);
        let ghost before = record_views(out@);
        out.push(DnsRecord { record_type: String::from_str(t), value: names[i].clone(), ttl });
        assert(record_views(out@) =~= before.push((t@, names@[i as int]@, ttl)));
        i = i + 1;
    }
    assert(nv.take(i as int) =~= nv);
}

/// The records that a lookup's answer gives, or the error that ends the
/// query.
pub fn dns_step_records(step: DnsStep, answer: &DnsAnswer) -> (r: Result<Vec<DnsRecord>, AppError>)
    ensures
        match r {
            Ok(v) => step_records(step, *answer) == Ok::<Seq<(Seq<char>, Seq<char>, u32)>, Seq<char>>(
                record_views(v@),
            ),
            Err(e) => e matches AppError::DnsError(m) && step_records(step, *answer) == Err::<
                Seq<(Seq<char>, Seq<char>, u32)>,
                Seq<char>,
            >(m@),
        },
{
    let mut out: Vec<DnsRecord> = Vec::new();
    assert(record_views(out@) =~= seq![]);
    match answer {
        DnsAnswer::Failed(e) => {
            match step {
                DnsStep::A => {
                    let mut m = String::from_str("A 记录查询失败: ");
                    m.append(e.as_str());
                    return Err(AppError::DnsError(m));
                },
                DnsStep::Aaaa => {
                    let mut m = String::from_str("AAAA 记录查询失败: ");
                    m.append(e.as_str());
                    return Err(AppError::DnsError(m));
                },
                _ => {},
            }
        },
        DnsAnswer::Addresses(addrs, ttl) => {
            let t = match ttl {
                Some(x) => *x,
                None => 0,
            };
            match step {
                DnsStep::A => address_records_of(addrs, true, false, t, &mut out),
                DnsStep::Aaaa => address_records_of(addrs, false, true, t, &mut out),
                DnsStep::AnyIp => address_records_of(addrs, true, true, t, &mut out),
                _ => {},
            }
        },
        DnsAnswer::Records(recs) => {
            match step {
                DnsStep::Cname | DnsStep::AnyCname => cname_records_of(recs, &mut out),
                _ => {},
            }
        },
        DnsAnswer::Exchangers(mx, ttl) => {
            let t = match ttl {
                Some(x) => *x,
                None => 0,
            };
            match step {
                DnsStep::Mx => mx_records_of(mx, "优先级: ", t, &mut out),
                DnsStep::AnyMx => mx_records_of(mx, "pri: ", t, &mut out),
                _ => {},
            }
        },
        DnsAnswer::Texts(names, ttl) => {
            let t = match ttl {
                Some(x) => *x,
                None => 0,
            };
            match step {
                DnsStep::Ns | DnsStep::AnyNs => text_records_of(names, "NS", t, &mut out),
                DnsStep::Txt => text_records_of(names, "TXT", t, &mut out),
                _ => {},
            }
        },
    }
    Ok(out)
}

/// The records of a whole query, from the answers to its lookups in order
/// (answers beyond the lookups are ignored): each lookup's records in turn,
/// or the first error.
pub open spec fn query_records(steps: Seq<DnsStep>, answers: Seq<DnsAnswer>) -> Result<
    Seq<(Seq<char>, Seq<char>, u32)>,
    Seq<char>,
>
    decreases steps.len(),
{
    if steps.len() == 0 || answers.len() < steps.len() {
        Ok(seq![])
    } else {
        match query_records(steps.drop_last(), answers.take(steps.len() - 1)) {
            Err(m) => Err(m),
            Ok(prev) => match step_records(steps.last(), answers[steps.len() - 1]) {
                Err(m) => Err(m),
                Ok(more) => Ok(prev + more),
            },
        }
    }
}

/// The records of a query, from the answers to its lookups.
pub fn collect_dns_records(steps: &Vec<DnsStep>, answers: &Vec<DnsAnswer>) -> (r: Result<Vec<DnsRecord>, AppError>)
    requires
        answers@.len() >= steps@.len(),
    ensures
        match r {
            Ok(v) => query_records(steps@, answers@) == Ok::<Seq<(Seq<char>, Seq<char>, u32)>, Seq<char>>(
                record_views(v@),
            ),
            Err(e) => e matches AppError::DnsError(m) && query_records(steps@, answers@) == Err::<
                Seq<(Seq<char>, Seq<char>, u32)>,
                Seq<char>,
            >(m@),
        },
{
    let mut out: Vec<DnsRecord> = Vec::new();
    let mut i: usize = 0;
    assert(record_views(out@) =~= seq![]);
    while i < steps.len()
        invariant
            i <= steps@.len() <= answers@.len(),
            query_records(steps@.take(i as int), answers@.take(i as int)) == Ok::<
                Seq<(Seq<char>, Seq<char>, u32)>,
                Seq<char>,
            >(record_views(out@)),
        decreases steps@.len() - i,
    {
        assert(steps@.take(i + 1).drop_last() =~= steps@.take(i as int));
        assert(answers@.take(i + 1).take(i as int) =~= answers@.take(i as int));
        assert(steps@.take(i + 1).last() == steps@[i as int]);
        assert(answers@.take(i + 1)[i as int] == answers@[i as int]);
        match dns_step_records(steps[i], &answers[i]) {
            Err(e) => {
                proof {
                    lemma_query_records_stops(steps@, answers@, i + 1);
                }
                return Err(e);
            },
            Ok(more) => {
                let ghost before = record_views(out@);
                let ghost added = record_views(more@);
                let mut more = more;
                out.append(&mut more);
                assert(record_views(out@) =~= before + added);
            },
        }
        i = i + 1;
    }
    assert(steps@.take(i as int) =~= steps@);
    proof {
        lemma_query_records_prefix(steps@, answers@);
    }
    Ok(out)
}

/// Answers beyond the lookups do not matter.
proof fn lemma_query_records_prefix(steps: Seq<DnsStep>, answers: Seq<DnsAnswer>)
    requires
        answers.len() >= steps.len(),
    ensures
        query_records(steps, answers) == query_records(steps, answers.take(steps.len() as int)),
{
    let a2 = answers.take(steps.len() as int);
    if steps.len() > 0 {
        assert(a2.take(steps.len() - 1) =~= answers.take(steps.len() - 1));
        assert(a2[steps.len() - 1] == answers[steps.len() - 1]);
    }
}

/// Once a lookup's answer is an error, the whole query is that error.
proof fn lemma_query_records_stops(steps: Seq<DnsStep>, answers: Seq<DnsAnswer>, k: int)
    requires
        1 <= k <= steps.len() <= answers.len(),
        query_records(steps.take(k), answers.take(k)) is Err,
    ensures
        query_records(steps, answers) == query_records(steps.take(k), answers.take(k)),
    decreases steps.len() - k,
{
    if k < steps.len() {
        let s2 = steps.take(k + 1);
        let a2 = answers.take(k + 1);
        assert(s2.drop_last() =~= steps.take(k));
        assert(a2.take(k) =~= answers.take(k));
        assert(query_records(s2, a2) == query_records(steps.take(k), answers.take(k)));
        lemma_query_records_stops(steps, answers, k + 1);
    } else {
        assert(steps.take(k) =~= steps);
        lemma_query_records_prefix(steps, answers);
    }
}

} // verus!
