[package]
name = "atlas_sdk"
version = "0.1.0"
edition = "2021"
publish = false

[dependencies]
default-net = "0.22"
dirs = "5"
dns-lookup = "2"
futures = "0.3"
ipnet = "2"
serde = { version = "1", features = ["derive"] }
serde_json = "1"
socket2 = { version = "0.5", features = ["all"] }
thiserror = "1"
tokio = { version = "1", features = ["rt-multi-thread", "net", "time", "sync", "macros"] }
uuid = { version = "1", features = ["v4"] }
