[package]
name = "ffmonitor"
version = "0.1.0"
edition = "2021"
publish = false

[dependencies]
anyhow = "1"
bincode = "2"
clap = { version = "4", features = ["derive"] }
clap_complete = "4"
clap_mangen = "0.2"
crossterm = "0.25"
flate2 = "1"
serde = { version = "1", features = ["derive"] }
serde_json = "1"
time = "0.3"
tui = "0.19"
