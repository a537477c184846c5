use route_doctor::checksum::{build_icmp_echo_request, icmp_checksum, internet_checksum};
use route_doctor::packets::{lookup_ttl_for_port, parse_icmp_for_tcp, parse_icmp_for_udp, parse_icmp_reply};
use route_doctor::probe_round::{FastHop, ProbeRound};

fn ip_header(protocol: u8) -> Vec<u8> {
    let mut h = vec![0u8; 20];
    h[0] = 0x45;
    h[9] = protocol;
    h
}

#[test]
fn checksum_of_known_data() {
    assert_eq!(internet_checksum(&[0x00, 0x01, 0xf2, 0x03, 0xf4, 0xf5, 0xf6, 0xf7]), 0x220d);
    assert_eq!(internet_checksum(&[]), 0xffff);
    assert_eq!(internet_checksum(&[0xff]), 0x00ff);
}

#[test]
fn data_followed_by_its_checksum_verifies() {
    let data: Vec<u8> = (0u8..40).map(|b| b.wrapping_mul(37)).collect();
    let c = icmp_checksum(&data);
    let mut all = data.clone();
    all.extend_from_slice(&c.to_be_bytes());
    assert_eq!(icmp_checksum(&all), 0);
}

#[test]
fn echo_request_layout_and_checksum() {
    let p = build_icmp_echo_request(0x1234, 0x0102);
    assert_eq!(p.len(), 16);
    assert_eq!(&p[0..2], &[8, 0]);
    assert_eq!(&p[4..8], &[0x12, 0x34, 0x01, 0x02]);
    assert_eq!(&p[8..16], &[0, 1, 2, 3, 4, 5, 6, 7]);
    assert_eq!(icmp_checksum(&p), 0);
}

#[test]
fn quoted_echo_request_is_recovered() {
    let req = build_icmp_echo_request(0xBEEF, 7);
    for t in [11u8, 3u8] {
        let mut data = ip_header(1);
        data.extend_from_slice(&[t, 0, 0, 0, 0, 0, 0, 0]);
        data.extend_from_slice(&ip_header(1));
        data.extend_from_slice(&req[..8]);
        assert_eq!(parse_icmp_reply(&data, 0xBEEF), Some((t, 7)));
        assert_eq!(parse_icmp_reply(&data, 0xBEEE), None);
    }
    let mut reply = ip_header(1);
    reply.extend_from_slice(&[0, 0, 0, 0]);
    reply.extend_from_slice(&req[4..16]);
    assert_eq!(parse_icmp_reply(&reply, 0xBEEF), Some((0, 7)));
    assert_eq!(parse_icmp_reply(&reply[..27], 0xBEEF), None);
}

#[test]
fn udp_and_tcp_reports_name_their_ttl() {
    let mut data = ip_header(1);
    data.extend_from_slice(&[11, 0, 0, 0, 0, 0, 0, 0]);
    data.extend_from_slice(&ip_header(17));
    let port: u16 = 33434 + 5;
    data.extend_from_slice(&[0x80, 0x00]);
    data.extend_from_slice(&port.to_be_bytes());
    data.extend_from_slice(&[0, 8, 0, 0]);
    assert_eq!(parse_icmp_for_udp(&data, 0).map(|(_, ttl)| ttl), Some(5));

    let table = [(3u8, 36003u16), (4u8, 36004u16)];
    assert_eq!(lookup_ttl_for_port(&table, 36004), Some(4));
    assert_eq!(lookup_ttl_for_port(&table, 36005), None);
    let mut tcp = ip_header(1);
    tcp.extend_from_slice(&[11, 0, 0, 0, 0, 0, 0, 0]);
    tcp.extend_from_slice(&ip_header(6));
    tcp.extend_from_slice(&36003u16.to_be_bytes());
    tcp.extend_from_slice(&[0, 80, 0, 0, 0, 0]);
    assert_eq!(parse_icmp_for_tcp(&tcp, &table), Some(3));
}

#[test]
fn a_round_with_all_probes_sent_times_every_answer() {
    let target = 0x08080808;
    let mut round = ProbeRound::new(target, 4);
    for ttl in 1..=round.max_hops() {
        round.record_send(ttl, 1_000);
    }
    round.process_udp_event(1, 0x0A000001, 3_000);
    round.process_udp_event(3, target, 9_000);
    let hops: Vec<FastHop> = round.finish_port_round(10_000);
    assert_eq!(hops.len(), 3);
    assert_eq!(hops[0].ip, Some(0x0A000001));
    assert_eq!(hops[0].rtt_ns, Some(2_000));
    assert_eq!(hops[1].ip, None);
    assert_eq!(hops[1].rtt_ns, None);
    assert_eq!(hops[2].ip, Some(target));
    assert_eq!(hops[2].rtt_ns, Some(8_000));
}
