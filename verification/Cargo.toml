[package]
name = "tcp_traffic_scan"
version = "0.1.0"
edition = "2021"
publish = false

[dependencies]
axum = "*"
clap = { version = "*", features = ["derive"] }
ctrlc = "*"
libc = "*"
serde = { version = "*", features = ["derive"] }
socket2 = "*"
tokio = { version = "*", features = ["rt-multi-thread", "net", "time", "macros"] }
