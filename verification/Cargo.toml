[package]
name = "messfunc"
version = "0.1.0"
edition = "2021"
publish = false

[dependencies]
uuid = { version = "1", features = ["v4"] }
tokio = { version = "1", features = ["rt-multi-thread", "sync", "time"] }
dashmap = "6"
sysinfo = "0.33"
twox-hash = "2"
