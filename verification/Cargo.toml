[package]
name = "nispor"
version = "0.1.0"
edition = "2021"
publish = false

[dependencies]
futures = "0.3"
netlink-packet-route = "*"
rtnetlink = "*"
serde = "1"
serde_derive = "1"
tokio = { version = "1", features = ["rt", "rt-multi-thread"] }
