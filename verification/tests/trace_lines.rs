use route_doctor::hop_lines::{
    hops_from_output, parse_hop_ip, parse_tracetcp_fields, parse_tracetcp_line, parse_traceroute_line, ParsedHop,
};
use route_doctor::target::{parse_target_with_port, split_target_port};
use route_doctor::text::{format_ipv4, parse_u16, parse_u32, text_lines};

fn lats(h: &ParsedHop) -> Vec<Option<&str>> {
    h.latencies.iter().map(|l| l.as_deref()).collect()
}

#[test]
fn tracert_line_with_three_times() {
    let h = parse_traceroute_line("  1     2 ms     3 ms     3 ms  172.20.111.1").unwrap();
    assert_eq!(h.hop_number, 1);
    assert_eq!(h.ip.as_deref(), Some("172.20.111.1"));
    assert_eq!(lats(&h), vec![Some("2"), Some("3"), Some("3")]);
}

#[test]
fn tracert_line_with_sub_millisecond_time() {
    let h = parse_traceroute_line("  2     1 ms    <1 ms    1 ms  172.20.255.21").unwrap();
    assert_eq!(h.hop_number, 2);
    assert_eq!(lats(&h), vec![Some("1"), Some("1"), Some("1")]);
    assert_eq!(h.ip.as_deref(), Some("172.20.255.21"));
}

#[test]
fn tracert_line_timed_out() {
    let h = parse_traceroute_line("  3     *        *        *     Request timed out.").unwrap();
    assert_eq!(h.hop_number, 3);
    assert_eq!(h.ip, None);
    assert_eq!(lats(&h), vec![None, None, None]);
}

#[test]
fn traceroute_unix_line_and_bracketed_address() {
    let h = parse_traceroute_line(" 4  10.0.0.1  0.512 ms  0.433 ms  0.401 ms").unwrap();
    assert_eq!(h.ip.as_deref(), Some("10.0.0.1"));
    assert_eq!(lats(&h), vec![Some("0.512"), Some("0.433"), Some("0.401")]);
    let h = parse_traceroute_line(" 5  host.example [10.0.0.5]  1.5e1").unwrap();
    assert_eq!(h.ip.as_deref(), Some("10.0.0.5"));
    assert_eq!(lats(&h), vec![Some("1.5e1")]);
}

#[test]
fn trace_banners_and_junk_give_nothing() {
    assert!(parse_traceroute_line("Tracing route to example.com [93.184.216.34]").is_none());
    assert!(parse_traceroute_line("over a maximum of 30 hops:").is_none());
    assert!(parse_traceroute_line("Trace complete.").is_none());
    assert!(parse_traceroute_line("traceroute to 8.8.8.8 (8.8.8.8), 30 hops max").is_none());
    assert!(parse_traceroute_line("   ").is_none());
    assert!(parse_traceroute_line("").is_none());
    assert!(parse_traceroute_line("x 1 ms").is_none());
    assert!(parse_traceroute_line("7").is_none());
}

#[test]
fn tracert_destination_line_reads_in_ms() {
    let line = " 4       Destination Reached in 9 ms. Connection established to 172.18.13.75";
    let h = parse_traceroute_line(line).unwrap();
    assert_eq!(h.hop_number, 4);
    assert_eq!(h.ip.as_deref(), Some("172.18.13.75"));
    assert_eq!(lats(&h), vec![Some("9")]);
    let h = parse_traceroute_line(" 4  Destination Reached in 9 ms, to 1.2.3.4").unwrap();
    assert!(h.latencies.is_empty());
    let h = parse_tracetcp_line(line).unwrap();
    assert_eq!(h.ip.as_deref(), Some("172.18.13.75"));
    assert_eq!(lats(&h), vec![Some("9")]);
}

#[test]
fn tracetcp_lines() {
    let h = parse_tracetcp_line(" 1       4 ms    4 ms    4 ms    172.20.167.1").unwrap();
    assert_eq!(h.hop_number, 1);
    assert_eq!(lats(&h), vec![Some("4"), Some("4"), Some("4")]);
    let h = parse_tracetcp_line(" 5  10 ms 172.1.1.1").unwrap();
    assert_eq!(lats(&h), vec![Some("10"), Some("10"), Some("10")]);
    assert!(parse_tracetcp_line("Tracing TCP route to 1.1.1.1 on port 443").is_none());
    assert!(parse_tracetcp_line("TRACING ROUTE to x").is_none());
    assert!(parse_tracetcp_line(" 101  1 ms 1.1.1.1").is_none());
    assert!(parse_tracetcp_line(" 0  1 ms 1.1.1.1").is_none());
    assert!(parse_tracetcp_line(" 6  Request timed").is_none());
}

#[test]
fn tracetcp_fields_use_the_given_lower_case() {
    assert!(parse_tracetcp_fields(" 2 1 ms 1.1.1.1", " 2 1 ms 1.1.1.1 on port").is_none());
    assert!(parse_tracetcp_fields(" 2 1 ms 1.1.1.1", " 2 1 ms 1.1.1.1").is_some());
}

#[test]
fn hop_ip_lines() {
    assert_eq!(parse_hop_ip("  3  [10.0.0.1]  "), Some((3, "10.0.0.1".to_string())));
    assert_eq!(parse_hop_ip(" 2  10.0.0.2  1 ms 10.0.0.9"), Some((2, "10.0.0.9".to_string())));
    assert_eq!(parse_hop_ip("65 1.1.1.1"), None);
    assert_eq!(parse_hop_ip(" 2  * * *"), None);
    assert_eq!(parse_hop_ip(""), None);
}

#[test]
fn hops_from_command_output() {
    let out = "Tracing route\r\n 1  10.0.0.1  1 ms\r\n 2  *  *\n 3 10.0.0.3\n";
    assert_eq!(hops_from_output(out), vec![(1, "10.0.0.1".to_string()), (3, "10.0.0.3".to_string())]);
}

#[test]
fn text_lines_match_str_lines() {
    for s in ["", "a", "a\n", "a\r\nb", "\n\nx\r", "one\ntwo\r\n\r\nthree\r\n"] {
        let expected: Vec<String> = s.lines().map(|l| l.to_string()).collect();
        assert_eq!(text_lines(s), expected, "{:?}", s);
    }
}

#[test]
fn unsigned_parsing_matches_std() {
    for s in ["", "+", "-1", "+7", "65535", "65536", "0", "007", "1 2", "x"] {
        assert_eq!(parse_u16(s), s.parse::<u16>().ok(), "{:?}", s);
        assert_eq!(parse_u32(s), s.parse::<u32>().ok(), "{:?}", s);
    }
    assert_eq!(parse_u32("4294967295"), Some(4294967295));
    assert_eq!(parse_u32("4294967296"), None);
}

#[test]
fn float_words_match_std() {
    for w in ["1", "1.", ".5", "1e3", "1E-3", "+inf", "-Infinity", "NaN", ".", "e5", "1e", "1.2.3", "--1", "0x1"] {
        let line = format!(" 9 {} 1.1.1.1", w);
        let h = parse_traceroute_line(&line).unwrap();
        let expected: Vec<Option<&str>> = if w.parse::<f64>().is_ok() { vec![Some(w)] } else { vec![] };
        assert_eq!(lats(&h), expected, "{:?}", w);
    }
}

#[test]
fn targets_with_ports() {
    assert_eq!(split_target_port("google.com:443", 80), ("google.com".to_string(), 443));
    assert_eq!(split_target_port("example.com", 80), ("example.com".to_string(), 80));
    assert_eq!(split_target_port("host:99999", 7), ("host:99999".to_string(), 7));
    assert_eq!(split_target_port("host:+8", 7), ("host".to_string(), 8));
    assert_eq!(split_target_port("::1", 80), ("::1".to_string(), 80));
    assert_eq!(parse_target_with_port("::1"), ("::1".to_string(), 443));
    assert_eq!(parse_target_with_port("fe80::1"), ("fe80::1".to_string(), 443));
    assert_eq!(split_target_port("h:0", 5), ("h".to_string(), 0));
    assert_eq!(split_target_port("a:b:80", 7), ("a:b".to_string(), 80));
    assert_eq!(parse_target_with_port("[::1]:80"), ("[::1]".to_string(), 80));
    assert_eq!(parse_target_with_port("1:2:3:4:5:6:7:8"), ("1:2:3:4:5:6:7:8".to_string(), 443));
    assert_eq!(parse_target_with_port("1.2.3.4:8080"), ("1.2.3.4".to_string(), 8080));
    assert_eq!(parse_target_with_port("google.com"), ("google.com".to_string(), 443));
}

#[test]
fn dotted_quad_text() {
    assert_eq!(format_ipv4(0xC0A80001), "192.168.0.1");
    assert_eq!(format_ipv4(0), "0.0.0.0");
    assert_eq!(format_ipv4(0xFFFFFFFF), "255.255.255.255");
}
