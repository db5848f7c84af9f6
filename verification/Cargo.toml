[package]
name = "network_statistics"
version = "0.1.0"
edition = "2021"
publish = false

[dependencies]
libc = "0.2"
log = "0.4"
netstat2 = "0.11"
sysinfo = "0.37"
time = { version = "0.3", features = ["formatting"] }
tokio = { version = "1", features = ["fs", "io-util", "time"] }
