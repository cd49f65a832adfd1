[package]
name = "easytier"
version = "0.1.0"
edition = "2021"
publish = false

[dependencies]
rand = { version = "=0.8.8", features = ["small_rng"] }
sha1 = "=0.10.7"
base64 = "=0.22.1"
chrono = "=0.4.45"
aes-gcm = "=0.10.3"
ring = "0.17"
bytes = "1"
pnet = "=0.35.0"
tokio = { version = "1", features = ["full"] }
tokio-util = { version = "0.7", features = ["full"] }
futures = "0.3"
flume = "0.11"
dashmap = "=6.2.1"
parking_lot = "0.12"
arc-swap = "1"
crossbeam = "0.8"
async-trait = "0.1"
anyhow = "1"
thiserror = "1"
tracing = "0.1"
url = "=2.5.8"
cidr = "0.3"
nix = { version = "0.29", features = ["net", "socket", "ioctl"] }
socket2 = { version = "0.5", features = ["all"] }
network-interface = "2"
netlink-sys = "0.8"
quanta = "0.12"
