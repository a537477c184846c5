//! Verified core of a network path and latency monitor.
pub mod error;
pub mod checksum;
pub mod packets;
pub mod probe_round;
pub mod text;
pub mod ip;
pub mod models;
pub mod npcap;
pub mod target;
pub mod decimal;
pub mod hop_lines;
pub mod continuous;
pub mod dns_query;
pub mod netinfo;
pub mod geo;
pub mod capture;
pub mod ping;
pub mod sessions;
pub mod history;
pub mod window;
pub mod trace_command;
