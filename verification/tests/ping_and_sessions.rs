use route_doctor::continuous::{trace_next, trace_start, DiscoverAction, PathProbe};
use route_doctor::models::ProbeMethod;
use route_doctor::ping::{loss_counts, parse_ping_time, push_bounded, PingSchedule, PingTime, MAX_SESSION_RESULTS};
use route_doctor::probe_round::FastHop;
use route_doctor::sessions::{cutoff_time, SampleBuffer, SessionRegistry, WriterStep, FLUSH_BATCH_SIZE};
use route_doctor::trace_command::{discovery_command, icmp_trace_command, ping_command, tcp_trace_command};

fn millis(out: &str) -> Option<String> {
    match parse_ping_time(out) {
        Some(PingTime::Millis(s)) => Some(s),
        Some(PingTime::SubMillisecond) => Some("<1".to_string()),
        None => None,
    }
}

#[test]
fn ping_output_times() {
    assert_eq!(millis("Reply from 180.101.49.12: bytes=32 time=24ms TTL=50"), Some("24".to_string()));
    assert_eq!(millis("来自 1.1.1.1 的回复: 字节=32 时间=7ms TTL=57"), Some("7".to_string()));
    assert_eq!(millis("Reply from 10.0.0.1: bytes=32 time<1ms TTL=64"), Some("<1".to_string()));
    assert_eq!(millis("64 bytes from 1.1.1.1: icmp_seq=1 ttl=57 time=12.5 ms"), None);
    assert_eq!(millis("time=12.5ms"), Some("12.5".to_string()));
    assert_eq!(millis("a=1.2.3ms b=4ms"), Some("4".to_string()));
    assert_eq!(millis("Request timed out."), None);
    assert_eq!(millis(""), None);
    assert_eq!(millis("=ms"), None);
}

#[test]
fn ping_schedule_counts() {
    let mut s = PingSchedule::new(Some(2));
    assert_eq!(s.next_probe(), Some((1, 1)));
    assert_eq!(s.next_probe(), Some((2, 2)));
    assert_eq!(s.next_probe(), None);
    let mut none = PingSchedule::new(Some(0));
    assert_eq!(none.next_probe(), None);
    let mut endless = PingSchedule::new(None);
    for _ in 0..65535 {
        endless.next_probe();
    }
    assert_eq!(endless.next_probe(), Some((65536, 1)));
}

#[test]
fn session_results_keep_the_newest() {
    let mut v: Vec<u32> = Vec::new();
    for i in 0..(MAX_SESSION_RESULTS as u32 + 5) {
        push_bounded(&mut v, i);
    }
    assert_eq!(v.len(), MAX_SESSION_RESULTS);
    assert_eq!(v[0], 5);
    assert_eq!(*v.last().unwrap(), MAX_SESSION_RESULTS as u32 + 4);
}

#[test]
fn loss_counting() {
    assert_eq!(loss_counts(&vec![false, true, false, true, true]), (5, 2, 3));
    assert_eq!(loss_counts(&vec![]), (0, 0, 0));
}

#[test]
fn one_session_per_target() {
    let mut r: SessionRegistry<u32> = SessionRegistry::new();
    assert!(r.register("a".to_string(), 1));
    assert!(r.register("b".to_string(), 2));
    assert!(!r.register("a".to_string(), 3));
    assert!(r.is_running("a"));
    assert_eq!(r.remove("a"), Some(1));
    assert!(!r.is_running("a"));
    assert_eq!(r.remove("a"), None);
    assert_eq!(r.len(), 1);
    assert!(r.register("a".to_string(), 4));
    assert_eq!(r.remove("a"), Some(4));
}

#[test]
fn registry_hands_back_each_sessions_own_information() {
    let mut r: SessionRegistry<u32> = SessionRegistry::new();
    assert!(r.register("x".to_string(), 10));
    assert!(r.register("y".to_string(), 20));
    assert!(r.register("z".to_string(), 30));
    assert_eq!(r.remove("y"), Some(20));
    assert_eq!(r.take_all(), vec![("x".to_string(), 10), ("z".to_string(), 30)]);
    assert_eq!(r.len(), 0);
}

#[test]
fn ping_history_keeps_the_newest_thousand() {
    let mut v: Vec<u32> = Vec::new();
    for i in 0..1500u32 {
        push_bounded(&mut v, i);
    }
    assert_eq!(v.len(), MAX_SESSION_RESULTS);
    assert_eq!(v[0], 500);
    assert_eq!(v[999], 1499);
}

#[test]
fn writer_batches_samples() {
    let mut b: SampleBuffer<u32> = SampleBuffer::new();
    assert_eq!(b.on_tick(), WriterStep::Wait);
    for i in 0..(FLUSH_BATCH_SIZE as u32 - 1) {
        assert_eq!(b.on_sample(i), WriterStep::Wait);
    }
    assert_eq!(b.on_sample(999), WriterStep::Flush);
    assert_eq!(b.pending().len(), FLUSH_BATCH_SIZE);
    assert_eq!(b.on_tick(), WriterStep::Flush);
    assert_eq!(b.on_session_stopped(), WriterStep::FlushThenStop);
    assert_eq!(b.on_closed(), WriterStep::FlushThenExit);
    b.flushed();
    assert!(b.pending().is_empty());
}

#[test]
fn history_cutoff() {
    assert_eq!(cutoff_time(1_700_000_000_000, 30), 1_700_000_000_000 - 30 * 86_400_000);
    assert_eq!(cutoff_time(5, 0), 5);
}

#[test]
fn one_off_trace_fallbacks() {
    assert_eq!(trace_start(ProbeMethod::Icmp, true), DiscoverAction::SystemCommand);
    assert_eq!(trace_start(ProbeMethod::Udp, true), DiscoverAction::Run(PathProbe::Udp));
    assert_eq!(trace_start(ProbeMethod::Tcp, false), DiscoverAction::SystemCommand);
    let silent = vec![FastHop { hop_number: 1, ip: None, rtt_ns: None }];
    let answered = vec![FastHop { hop_number: 1, ip: Some(0x08080808), rtt_ns: Some(5) }];
    assert_eq!(trace_next(PathProbe::Udp, Some(&silent)), DiscoverAction::Run(PathProbe::Icmp));
    assert_eq!(trace_next(PathProbe::Tcp, None), DiscoverAction::Run(PathProbe::Icmp));
    assert_eq!(trace_next(PathProbe::Icmp, Some(&answered)), DiscoverAction::UseHops);
    assert_eq!(trace_next(PathProbe::Icmp, None), DiscoverAction::SystemCommand);
}

fn argv(c: (String, Vec<String>)) -> Vec<String> {
    let mut v = vec![c.0];
    v.extend(c.1);
    v
}

#[test]
fn system_command_lines() {
    assert_eq!(argv(icmp_trace_command(true, "1.1.1.1", 30, 3000)), ["tracert", "-d", "-h", "30", "-w", "3000", "1.1.1.1"]);
    assert_eq!(
        argv(icmp_trace_command(false, "1.1.1.1", 30, 3000)),
        ["traceroute", "-I", "-n", "-m", "30", "-w", "3", "1.1.1.1"]
    );
    assert_eq!(
        argv(tcp_trace_command(true, "example.com", 20, 500)),
        ["tracetcp", "example.com:443", "-m", "20", "-t", "500", "-n", "-p", "3"]
    );
    assert_eq!(
        argv(tcp_trace_command(true, "example.com:8080", 20, 500))[1],
        "example.com:8080"
    );
    assert_eq!(
        argv(tcp_trace_command(false, "example.com", 20, 999)),
        ["traceroute", "-T", "-n", "-m", "20", "-w", "0", "example.com"]
    );
    assert_eq!(
        argv(discovery_command(true, Some(ProbeMethod::Tcp), "h", 64, 1000)),
        ["tracetcp", "h:443", "-m", "64", "-t", "1000", "-n"]
    );
    assert_eq!(argv(discovery_command(false, Some(ProbeMethod::Udp), "h", 9, 2500))[1], "-U");
    assert_eq!(argv(discovery_command(false, None, "h", 9, 2500))[1], "-I");
    assert_eq!(argv(ping_command(false, "8.8.8.8", 1000, 32)), ["ping", "-n", "1", "-w", "1000", "-l", "32", "8.8.8.8"]);
    assert_eq!(argv(ping_command(true, "8.8.8.8", 1000, 32)), ["ping", "-n", "1", "-l", "32", "-w", "1000", "8.8.8.8"]);
}

#[test]
fn ping_loop_numbers_and_keeps_results() {
    let mut schedule = PingSchedule::new(Some(1200));
    let mut kept: Vec<(u32, u32)> = Vec::new();
    for item in 0..1500u32 {
        if let Some((n, _)) = schedule.next_probe() {
            push_bounded(&mut kept, (n, item));
        }
    }
    assert_eq!(kept.len(), 1000);
    assert_eq!(kept[0], (201, 200));
    assert_eq!(kept[999], (1200, 1199));
}
