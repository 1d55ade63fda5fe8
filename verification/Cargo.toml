[package]
name = "babyshark"
version = "0.3.0"
edition = "2021"
publish = false

[dependencies]
etherparse = "0.15"
ipnet = "2"
pcap-file = "2"
chrono = "0.4"
clap = { version = "4", features = ["derive"] }
crossterm = "0.28"
ratatui = "0.29"
anyhow = "1"
serde = { version = "1", features = ["derive"] }
serde_json = "1"
reqwest = { version = "0.12", default-features = false, features = ["blocking", "json", "rustls-tls"] }

[dev-dependencies]
tempfile = "3"
