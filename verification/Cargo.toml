[package]
name = "seedchamp_engine"
version = "1.0.0"
edition = "2021"
publish = false

[dependencies]
compio = { version = "=0.19.2", features = ["fs", "io", "net", "time"] }
crossbeam-channel = "=0.5.17"
cyper = { version = "=0.9.0", default-features = false, features = ["hickory-dns", "rustls"] }
cyper-hickory = "=0.1.0"
flume = "=0.12.0"
futures = "=0.3.34"
futures-channel = "=0.3.34"
hex = "=0.4.3"
hickory-resolver = "=0.26.3"
io-uring = "=0.7.15"
libc = "=0.2.191"
nix = { version = "=0.31.3", features = ["fs"] }
parking_lot = "=0.13.0"
rand = "=0.10.3"
sha1 = "=0.11.0"
socket2 = "=0.6.5"
sysinfo = "=0.40.1"
tracing = "=0.1.44"
url = "=2.5.8"
