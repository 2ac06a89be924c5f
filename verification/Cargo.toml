[package]
name = "robodeck"
version = "0.1.0"
edition = "2021"
publish = false

[dependencies]
serde = { version = "1", features = ["derive"] }
serde_json = "1"
uuid = { version = "1", features = ["v4"] }
rand = "=0.8.8"
tokio = { version = "1", features = ["macros", "rt-multi-thread", "net", "sync", "signal"] }
axum = "0.8"
zenoh = { version = "1", default-features = false, features = ["transport_tcp", "transport_udp"] }
cdr = "0.2"
serde-big-array = "0.5"
