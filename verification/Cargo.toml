[package]
name = "route_doctor"
version = "0.1.0"
edition = "2021"
publish = false

[dependencies]
pnet_packet = "0.35"
socket2 = { version = "0.5", features = ["all"] }
tokio = { version = "1", features = ["rt-multi-thread", "macros", "sync", "time", "process", "io-util", "net", "fs"] }
serde = { version = "1", features = ["derive"] }
serde_json = "1"
log = "0.4"
chrono = "0.4"
once_cell = "1"
thiserror = "1"
trust-dns-resolver = "0.23"
surge-ping = "0.8"
reqwest = { version = "0.12", default-features = false, features = ["json", "stream", "rustls-tls"] }
futures-util = "0.3"
rusqlite = { version = "*", features = ["bundled"] }
pcap = "2"
env_logger = "0.11"
winreg = "*"
