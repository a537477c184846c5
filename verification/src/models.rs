//! The records exchanged with the user interface and the history store.
use vstd::prelude::*;

verus! {

/// How traceroute probes are sent.
#[derive(Debug, Clone, Copy, PartialEq, Eq, Structural)]
pub enum ProbeMethod {
    Icmp,
    Udp,
    Tcp,
}

/// The lower-case name of a probe method.
pub open spec fn probe_method_name(m: ProbeMethod) -> Seq<char> {
    match m {
        ProbeMethod::Icmp => "icmp"@,
        ProbeMethod::Udp => "udp"@,
        ProbeMethod::Tcp => "tcp"@,
    }
}

impl ProbeMethod {
    /// The lower-case name of the method, as shown and stored.
    pub fn name(&self) -> (r: String)
        ensures
            r@ == probe_method_name(*self),
    {
        match self {
            ProbeMethod::Icmp => String::from_str("icmp"),
            ProbeMethod::Udp => String::from_str("udp"),
            ProbeMethod::Tcp => String::from_str("tcp"),
        }
    }

    /// The method with the given lower-case name.
    pub fn from_name(name: &str) -> (r: Option<ProbeMethod>)
        ensures
            r == (if name@ == "icmp"@ {
                Some(ProbeMethod::Icmp)
            } else if name@ == "udp"@ {
                Some(ProbeMethod::Udp)
            } else if name@ == "tcp"@ {
                Some(ProbeMethod::Tcp)
            } else {
                None
            }),
    {
        let owned = String::from_str(name);
        if owned == String::from_str("icmp") {
            Some(ProbeMethod::Icmp)
        } else if owned == String::from_str("udp") {
            Some(ProbeMethod::Udp)
        } else if owned == String::from_str("tcp") {
            Some(ProbeMethod::Tcp)
        } else {
            None
        }
    }
}

impl Default for ProbeMethod {
    /// ICMP, the method of the system traceroute.
    fn default() -> (r: ProbeMethod)
        ensures
            r == ProbeMethod::Icmp,
    {
        ProbeMethod::Icmp
    }
}

/// Configuration of a continuous ping.
#[derive(Debug, Clone)]
pub struct PingConfig {
    /// Host name or address to ping.
    pub target: String,
    /// Pause between pings, in milliseconds.
    pub interval_ms: u32,
    /// Time to wait for each reply, in milliseconds.
    pub timeout_ms: u32,
    /// Number of pings; `None` pings until stopped.
    pub count: Option<u32>,
    /// Payload size in bytes.
    pub packet_size: u32,
}

/// Configuration of a traceroute.
#[derive(Debug, Clone)]
pub struct TracerouteConfig {
    /// Host name or address to trace, optionally with `:port` for TCP.
    pub target: String,
    /// Largest TTL probed.
    pub max_hops: u32,
    /// Time to wait for each probe, in milliseconds.
    pub timeout_ms: u32,
    /// Probes sent per hop by the system command.
    pub probes_per_hop: u32,
    /// How probes are sent.
    pub probe_method: ProbeMethod,
}

/// One stored test session.
#[derive(Debug, Clone)]
pub struct HistoryRecord {
    pub id: i64,
    pub target: String,
    pub test_type: String,
    pub start_time: i64,
    pub end_time: i64,
    /// The session's results, as JSON text.
    pub data: String,
}

/// One DNS record found by a lookup.
#[derive(Debug, Clone)]
pub struct DnsRecord {
    pub record_type: String,
    pub value: String,
    pub ttl: u32,
}

/// A network interface and one of its IPv4 addresses.
#[derive(Debug, Clone)]
pub struct NetworkInterface {
    pub name: String,
    pub ip: String,
    pub interface_type: String,
}

/// What is known of the local network configuration.
#[derive(Debug, Clone)]
pub struct NetworkInfo {
    pub local_ip: Option<String>,
    pub interfaces: Vec<NetworkInterface>,
    pub default_gateway: Option<String>,
    pub dns_servers: Vec<String>,
    pub hostname: String,
}

/// Where the application keeps its data.
#[derive(Debug, Clone)]
pub struct AppRuntimeInfo {
    /// Whether the data lives beside the executable.
    pub portable: bool,
    /// The data directory in use.
    pub data_dir: String,
}

/// One hop of a discovered path.
#[derive(Debug, Clone)]
pub struct DiscoveredHop {
    pub hop_number: u32,
    pub ip: Option<String>,
    pub hostname: Option<String>,
}

/// The path found by one round of a continuous trace.
#[derive(Debug, Clone)]
pub struct PathSnapshot {
    pub target: String,
    pub hops: Vec<DiscoveredHop>,
    /// The round that found it, counted from 1.
    pub round_seq: u32,
}

/// A stored continuous-trace session.
#[derive(Debug, Clone)]
pub struct TraceSessionRow {
    pub id: i64,
    pub target: String,
    pub started_at: i64,
    pub ended_at: Option<i64>,
    pub ping_interval_ms: u32,
    pub timeout_ms: u32,
    pub probe_method: String,
    /// `running`, `stopped` or `crashed`.
    pub status: String,
}

/// The stored description of one hop of a continuous-trace session.
#[derive(Debug, Clone)]
pub struct TraceHopInfoRow {
    pub hop_number: u32,
    pub ip: Option<String>,
    pub hostname: Option<String>,
    /// Geolocation of the hop, as JSON text.
    pub geo_json: Option<String>,
}

} // verus!
