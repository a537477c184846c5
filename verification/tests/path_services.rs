use route_doctor::capture::{
    parse_icmp_for_tcp, parse_icmp_for_udp, parse_target_tcp_for_ttl, pick_default_device, strip_link_header,
    CaptureDevice,
};
use route_doctor::continuous::{
    any_hop_answered, discovery_next, discovery_start, fast_hops_to_result, fast_result_usable, system_hops_to_result,
    ContinuousTrace, DiscoverAction, PathProbe, RoundHop, RoundStep,
};
use route_doctor::dns_query::{collect_dns_records, dns_lookup_plan, dns_step_records, DnsAnswer, DnsStep};
use route_doctor::error::AppError;
use route_doctor::geo::{batch_entries_kept, chunks_of, is_private, split_asn, GeoCache, GeoLookup, IpAddress};
use route_doctor::models::ProbeMethod;
use route_doctor::netinfo::{
    gateway_from_route, gateway_from_text, host_name_from_ptr, interfaces_from, nameservers_from_listing,
    nameservers_from_resolv_conf,
};
use route_doctor::probe_round::FastHop;

fn hop(n: u32, ip: Option<u32>) -> FastHop {
    FastHop { hop_number: n, ip, rtt_ns: ip.map(|_| 1_000_000) }
}

#[test]
fn fast_hops_become_round_hops() {
    let r = fast_hops_to_result(vec![hop(1, Some(0x0A000001)), hop(2, None)]);
    assert_eq!(r.len(), 2);
    assert_eq!(r[0].ip.as_deref(), Some("10.0.0.1"));
    assert!(!r[0].is_timeout);
    assert_eq!(r[0].rtt_ns, Some(1_000_000));
    assert_eq!(r[1].ip, None);
    assert!(r[1].is_timeout);
    let s = system_hops_to_result(vec![(3, "1.1.1.1".to_string())]);
    assert_eq!(s[0].hop_number, 3);
    assert_eq!(s[0].ip.as_deref(), Some("1.1.1.1"));
    assert!(!s[0].is_timeout);
    assert_eq!(s[0].rtt_ns, None);
}

#[test]
fn usable_traces_need_a_hop_before_the_target() {
    let target = 0x08080808;
    assert!(!fast_result_usable(&vec![], target));
    assert!(!fast_result_usable(&vec![hop(1, None), hop(2, Some(target))], target));
    assert!(fast_result_usable(&vec![hop(1, Some(0x0A000001)), hop(2, Some(target))], target));
    assert!(any_hop_answered(&vec![hop(1, None), hop(2, Some(target))]));
    assert!(!any_hop_answered(&vec![hop(1, None)]));
}

#[test]
fn discovery_falls_back_in_order() {
    let target = 0x08080808;
    assert_eq!(discovery_start(false, Some(ProbeMethod::Udp), true), DiscoverAction::SystemCommand);
    assert_eq!(discovery_start(true, Some(ProbeMethod::Udp), true), DiscoverAction::Run(PathProbe::CaptureUdp));
    assert_eq!(discovery_start(true, Some(ProbeMethod::Tcp), false), DiscoverAction::Run(PathProbe::Tcp));
    assert_eq!(discovery_start(true, None, false), DiscoverAction::Run(PathProbe::Icmp));
    assert_eq!(discovery_next(PathProbe::CaptureUdp, None, target), DiscoverAction::Run(PathProbe::Udp));
    assert_eq!(discovery_next(PathProbe::Udp, None, target), DiscoverAction::Run(PathProbe::Icmp));
    let blocked = vec![hop(1, Some(target))];
    assert_eq!(discovery_next(PathProbe::CaptureTcp, Some(&blocked), target), DiscoverAction::Run(PathProbe::Icmp));
    assert_eq!(discovery_next(PathProbe::Icmp, Some(&blocked), target), DiscoverAction::SystemCommand);
    let good = vec![hop(1, Some(0x0A000001))];
    assert_eq!(discovery_next(PathProbe::Icmp, Some(&good), target), DiscoverAction::UseHops);
}

fn round(pairs: &[(u32, Option<&str>)]) -> Vec<RoundHop> {
    pairs
        .iter()
        .map(|(n, ip)| RoundHop {
            hop_number: *n,
            ip: ip.map(|s| s.to_string()),
            hostname: None,
            rtt_ns: None,
            is_timeout: ip.is_none(),
        })
        .collect()
}

#[test]
fn new_addresses_are_reported_once() {
    let mut t = ContinuousTrace::new();
    assert_eq!(t.round_seq(), 1);
    assert_eq!(t.record_round(&vec![]), None);
    let first = t.record_round(&round(&[(1, Some("10.0.0.1")), (2, None), (3, Some("8.8.8.8"))])).unwrap();
    assert_eq!(first, vec![(1, "10.0.0.1".to_string()), (3, "8.8.8.8".to_string())]);
    assert_eq!(t.begin_round(), 2);
    let second = t
        .record_round(&round(&[(1, Some("10.0.0.1")), (2, Some("10.0.0.2")), (2, Some("10.0.0.2")), (3, Some("10.0.0.1"))]))
        .unwrap();
    assert_eq!(second, vec![(2, "10.0.0.2".to_string()), (3, "10.0.0.1".to_string())]);
    let third = t.record_round(&round(&[(1, Some("10.0.0.1")), (2, Some("10.0.0.2"))])).unwrap();
    assert!(third.is_empty());
}

#[test]
fn rounds_report_discovery_then_updates() {
    let mut t = ContinuousTrace::new();
    assert!(matches!(t.on_round(&vec![]), RoundStep::NoPath));
    match t.on_round(&round(&[(1, Some("10.0.0.1")), (2, None)])) {
        RoundStep::Report { round_seq, first, new_pairs } => {
            assert_eq!(round_seq, 1);
            assert!(first);
            assert_eq!(new_pairs, vec![(1, "10.0.0.1".to_string())]);
        }
        other => panic!("unexpected {:?}", other),
    }
    assert_eq!(t.begin_round(), 2);
    assert!(matches!(t.on_round(&vec![]), RoundStep::Skip));
    assert_eq!(t.begin_round(), 3);
    match t.on_round(&round(&[(1, Some("10.0.0.1")), (2, Some("10.0.0.2"))])) {
        RoundStep::Report { round_seq, first, new_pairs } => {
            assert_eq!(round_seq, 3);
            assert!(!first);
            assert_eq!(new_pairs, vec![(2, "10.0.0.2".to_string())]);
        }
        other => panic!("unexpected {:?}", other),
    }
}

#[test]
fn round_numbers_wrap() {
    let mut t = ContinuousTrace::new();
    let mut last = 1;
    for _ in 0..3 {
        last = t.begin_round();
    }
    assert_eq!(last, 4);
}

#[test]
fn dns_plans() {
    assert_eq!(dns_lookup_plan("A").unwrap(), vec![DnsStep::A]);
    assert_eq!(
        dns_lookup_plan("ALL").unwrap(),
        vec![DnsStep::AnyIp, DnsStep::AnyCname, DnsStep::AnyMx, DnsStep::AnyNs]
    );
    match dns_lookup_plan("SRV") {
        Err(AppError::DnsError(m)) => assert_eq!(m, "不支持的记录类型: SRV"),
        other => panic!("{:?}", other),
    }
}

#[test]
fn dns_answers_become_records() {
    let addrs = DnsAnswer::Addresses(vec![(true, "1.2.3.4".into()), (false, "::1".into())], Some(300));
    let a = dns_step_records(DnsStep::A, &addrs).unwrap();
    assert_eq!(a.len(), 1);
    assert_eq!((a[0].record_type.as_str(), a[0].value.as_str(), a[0].ttl), ("A", "1.2.3.4", 300));
    let all = dns_step_records(DnsStep::AnyIp, &addrs).unwrap();
    assert_eq!(all[1].record_type, "AAAA");
    let mx = DnsAnswer::Exchangers(vec![("mail.example.com.".into(), 10)], None);
    let m = dns_step_records(DnsStep::Mx, &mx).unwrap();
    assert_eq!(m[0].value, "mail.example.com. (优先级: 10)");
    assert_eq!(m[0].ttl, 0);
    let m = dns_step_records(DnsStep::AnyMx, &mx).unwrap();
    assert_eq!(m[0].value, "mail.example.com. (pri: 10)");
    let c = DnsAnswer::Records(vec![(None, 5), (Some("alias.example.".into()), 7)]);
    let c = dns_step_records(DnsStep::Cname, &c).unwrap();
    assert_eq!((c.len(), c[0].value.as_str(), c[0].ttl), (1, "alias.example.", 7));
    let txt = dns_step_records(DnsStep::Txt, &DnsAnswer::Texts(vec!["v=spf1".into()], Some(60))).unwrap();
    assert_eq!((txt[0].record_type.as_str(), txt[0].value.as_str()), ("TXT", "v=spf1"));
    match dns_step_records(DnsStep::Aaaa, &DnsAnswer::Failed("timeout".into())) {
        Err(AppError::DnsError(m)) => assert_eq!(m, "AAAA 记录查询失败: timeout"),
        other => panic!("{:?}", other),
    }
    assert!(dns_step_records(DnsStep::Ns, &DnsAnswer::Failed("nx".into())).unwrap().is_empty());
}

#[test]
fn dns_query_collects_in_order() {
    let steps = dns_lookup_plan("ALL").unwrap();
    let answers = vec![
        DnsAnswer::Addresses(vec![(true, "1.2.3.4".into())], Some(1)),
        DnsAnswer::Failed("no cname".into()),
        DnsAnswer::Exchangers(vec![("mx.".into(), 5)], Some(2)),
        DnsAnswer::Texts(vec!["ns1.".into()], Some(3)),
    ];
    let recs = collect_dns_records(&steps, &answers).unwrap();
    let kinds: Vec<&str> = recs.iter().map(|r| r.record_type.as_str()).collect();
    assert_eq!(kinds, vec!["A", "MX", "NS"]);
    let fail = collect_dns_records(&vec![DnsStep::A], &vec![DnsAnswer::Failed("x".into())]);
    assert!(matches!(fail, Err(AppError::DnsError(_))));
}

#[test]
fn resolver_configuration() {
    let conf = "# comment\nnameserver 1.1.1.1\nnameserver 1.1.1.1\nnameserver\nnameserver 8.8.8.8 extra\nsearch lan\nnameserver 1.1.1.1\n";
    assert_eq!(nameservers_from_resolv_conf(conf), vec!["1.1.1.1", "8.8.8.8", "1.1.1.1"]);
    assert_eq!(nameservers_from_listing(" 10.0.0.1 \r\n\r\n10.0.0.1\n10.0.0.2"), vec!["10.0.0.1", "10.0.0.2"]);
}

#[test]
fn default_gateway_text() {
    assert_eq!(gateway_from_route("default via 192.168.1.1 dev eth0 proto dhcp").as_deref(), Some("192.168.1.1"));
    assert_eq!(gateway_from_route("nothing here"), None);
    assert_eq!(gateway_from_text("  10.0.0.1\r\n").as_deref(), Some("10.0.0.1"));
    assert_eq!(gateway_from_text(" \n"), None);
}

#[test]
fn interface_listing_skips_loopback_and_blank() {
    let r = interfaces_from(&vec![
        ("lo".to_string(), vec!["127.0.0.1".to_string()]),
        ("eth0".to_string(), vec!["".to_string(), "192.168.1.5".to_string(), "10.0.0.7".to_string()]),
    ]);
    let got: Vec<(&str, &str, &str)> =
        r.iter().map(|i| (i.name.as_str(), i.ip.as_str(), i.interface_type.as_str())).collect();
    assert_eq!(got, vec![("eth0", "192.168.1.5", "IPv4"), ("eth0", "10.0.0.7", "IPv4")]);
}

#[test]
fn reverse_lookup_names() {
    assert_eq!(host_name_from_ptr("dns.google.").as_deref(), Some("dns.google"));
    assert_eq!(host_name_from_ptr("host"), Some("host".to_string()));
    assert_eq!(host_name_from_ptr("."), None);
    assert_eq!(host_name_from_ptr(""), None);
}

#[test]
fn private_addresses() {
    for (o, p) in [
        ([10, 1, 2, 3], true),
        ([172, 16, 0, 1], true),
        ([172, 32, 0, 1], false),
        ([192, 168, 1, 1], true),
        ([127, 0, 0, 1], true),
        ([169, 254, 1, 1], true),
        ([255, 255, 255, 255], true),
        ([192, 0, 2, 7], true),
        ([198, 51, 100, 7], true),
        ([203, 0, 113, 7], true),
        ([0, 0, 0, 0], true),
        ([8, 8, 8, 8], false),
    ] {
        assert_eq!(is_private(&IpAddress::V4(o)), p, "{:?}", o);
    }
    assert!(is_private(&IpAddress::V6([0, 0, 0, 0, 0, 0, 0, 1])));
    assert!(is_private(&IpAddress::V6([0; 8])));
    assert!(is_private(&IpAddress::V6([0xfd12, 0, 0, 0, 0, 0, 0, 1])));
    assert!(is_private(&IpAddress::V6([0xfe80, 0, 0, 0, 0, 0, 0, 1])));
    assert!(is_private(&IpAddress::V6([0xfe90, 0, 0, 0, 0, 0, 0, 1])));
    assert!(is_private(&IpAddress::V6([0xfebf, 0, 0, 0, 0, 0, 0, 1])));
    assert!(!is_private(&IpAddress::V6([0xfec0, 0, 0, 0, 0, 0, 0, 1])));
    assert!(!is_private(&IpAddress::V6([0x2001, 0x4860, 0, 0, 0, 0, 0, 0x8888])));
}

#[test]
fn asn_fields() {
    assert_eq!(split_asn(Some("AS15169 Google LLC")), (Some("AS15169".to_string()), Some("Google LLC".to_string())));
    assert_eq!(split_asn(Some("AS13335")), (Some("AS13335".to_string()), None));
    assert_eq!(split_asn(Some("Private")), (None, Some("Private".to_string())));
    assert_eq!(split_asn(None), (None, None));
}

#[test]
fn geo_cache_reads_what_was_written() {
    let mut cache: GeoCache<String> = GeoCache::new();
    let ip = IpAddress::V4([8, 8, 8, 8]);
    let key = "8.8.8.8".to_string();
    assert_eq!(cache.begin_lookup(&ip, &key, 1000), GeoLookup::Query);
    cache.finish_lookup(key.clone(), Some("US".to_string()), 1000);
    match cache.begin_lookup(&ip, &key, 1000 + 86399) {
        GeoLookup::Cached(i) => assert_eq!(cache.info_at(i).as_deref(), Some("US")),
        other => panic!("{:?}", other),
    }
    assert_eq!(cache.begin_lookup(&ip, &key, 1000 + 86400), GeoLookup::Query);
    let lan = IpAddress::V4([192, 168, 0, 1]);
    let lan_key = "192.168.0.1".to_string();
    assert_eq!(cache.begin_lookup(&lan, &lan_key, 5), GeoLookup::Skip);
    match cache.begin_lookup(&lan, &lan_key, i64::MAX - 1) {
        GeoLookup::Cached(i) => assert_eq!(cache.info_at(i), &None),
        other => panic!("{:?}", other),
    }
}

#[test]
fn batch_answers_and_chunks() {
    let kept = batch_entries_kept(&vec![
        (Some("1.1.1.1".into()), Some("success".into())),
        (Some("".into()), Some("success".into())),
        (Some("2.2.2.2".into()), Some("fail".into())),
        (None, Some("success".into())),
        (Some("3.3.3.3".into()), Some("success".into())),
    ]);
    assert_eq!(kept, vec![0, 4]);
    assert_eq!(chunks_of(250, 100), vec![(0, 100), (100, 200), (200, 250)]);
    assert_eq!(chunks_of(200, 100), vec![(0, 100), (100, 200)]);
    assert!(chunks_of(0, 100).is_empty());
}

fn ipv4(proto: u8, src: [u8; 4], payload: &[u8]) -> Vec<u8> {
    let total = 20 + payload.len();
    let mut p = vec![0x45, 0, (total >> 8) as u8, total as u8, 0, 0, 0, 0, 64, proto, 0, 0];
    p.extend_from_slice(&src);
    p.extend_from_slice(&[10, 0, 0, 9]);
    p.extend_from_slice(payload);
    p
}

fn ethernet(ip: &[u8]) -> Vec<u8> {
    let mut f = vec![0u8; 12];
    f.extend_from_slice(&[0x08, 0x00]);
    f.extend_from_slice(ip);
    f
}

fn icmp_error(kind: u8, quoted: &[u8]) -> Vec<u8> {
    let mut m = vec![kind, 0, 0, 0, 0, 0, 0, 0];
    m.extend_from_slice(quoted);
    m
}

#[test]
fn link_headers() {
    let ip = ipv4(1, [1, 2, 3, 4], &[]);
    assert_eq!(strip_link_header(&ethernet(&ip), 1), Some(&ip[..]));
    assert_eq!(strip_link_header(&ip, 12), Some(&ip[..]));
    assert_eq!(strip_link_header(&ip, 228), Some(&ip[..]));
    let mut arp = ethernet(&ip);
    arp[13] = 0x06;
    assert_eq!(strip_link_header(&arp, 1), None);
    assert_eq!(strip_link_header(&[0u8; 13], 1), None);
    assert_eq!(strip_link_header(&arp, 113), Some(&arp[..]));
    assert_eq!(strip_link_header(&[0u8; 3], 0), Some(&[0u8; 3][..]));
}

#[test]
fn captured_probe_reports() {
    let udp = [0x82, 0x9a, (33434u16 + 5 >> 8) as u8, (33434u16 + 5) as u8, 0, 8, 0, 0];
    let quoted = ipv4(17, [10, 0, 0, 9], &udp);
    let frame = ethernet(&ipv4(1, [172, 16, 0, 1], &icmp_error(11, &quoted)));
    assert_eq!(parse_icmp_for_udp(&frame, 1), Some((0xAC100001, 5)));
    assert_eq!(parse_icmp_for_tcp(&frame, 1), None);
    let wrapped = 33434u16 + 256 + 5;
    let udp2 = [0, 0, (wrapped >> 8) as u8, wrapped as u8, 0, 8, 0, 0];
    let frame2 = ipv4(1, [172, 16, 0, 1], &icmp_error(3, &ipv4(17, [10, 0, 0, 9], &udp2)));
    assert_eq!(parse_icmp_for_udp(&frame2, 12), Some((0xAC100001, 5)));
    let tcp = [(36000u16 + 7 >> 8) as u8, (36000u16 + 7) as u8, 0x01, 0xbb, 0, 0, 0, 0];
    let frame3 = ethernet(&ipv4(1, [172, 16, 0, 2], &icmp_error(11, &ipv4(6, [10, 0, 0, 9], &tcp))));
    assert_eq!(parse_icmp_for_tcp(&frame3, 1), Some((0xAC100002, 7)));
    let echo = ethernet(&ipv4(1, [172, 16, 0, 2], &icmp_error(0, &ipv4(6, [10, 0, 0, 9], &tcp))));
    assert_eq!(parse_icmp_for_tcp(&echo, 1), None);
}

#[test]
fn target_answers_name_the_probe() {
    let syn_ack = [0x01, 0xbb, (36000u16 + 9 >> 8) as u8, (36000u16 + 9) as u8, 0, 0, 0, 0];
    let frame = ethernet(&ipv4(6, [93, 184, 216, 34], &syn_ack));
    assert_eq!(parse_target_tcp_for_ttl(&frame, 1, 0x5DB8D822, 443), Some(9));
    assert_eq!(parse_target_tcp_for_ttl(&frame, 1, 0x5DB8D822, 80), None);
    assert_eq!(parse_target_tcp_for_ttl(&frame, 1, 0x01010101, 443), None);
}

#[test]
fn capture_device_choice() {
    let dev = |name: &str, desc: Option<&str>, addrs: Vec<u32>| CaptureDevice {
        name: name.to_string(),
        desc: desc.map(|d| d.to_string()),
        ipv4_addrs: addrs,
    };
    let devices = vec![
        dev("lo", Some("Adapter for loopback traffic capture"), vec![0x7F000001]),
        dev("veth", Some("Hyper-V Virtual Ethernet Adapter"), vec![0xAC100001]),
        dev("eth", Some("Intel Ethernet"), vec![0xC0A80105]),
    ];
    assert_eq!(pick_default_device(&devices, Some(0xAC100001)).unwrap(), 1);
    assert_eq!(pick_default_device(&devices, Some(0x01020304)).unwrap(), 2);
    assert_eq!(pick_default_device(&devices, None).unwrap(), 2);
    let only_virtual = vec![devices[0].clone(), devices[1].clone()];
    assert_eq!(pick_default_device(&only_virtual, None).unwrap(), 1);
    match pick_default_device(&vec![devices[0].clone()], None) {
        Err(AppError::TracerouteError(m)) => assert_eq!(m, "未找到合适的网卡（无 IPv4 非 loopback 接口）"),
        other => panic!("{:?}", other),
    }
}
