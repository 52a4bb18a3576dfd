[package]
name = "rushort"
version = "0.1.0"
edition = "2021"
publish = false

[dependencies]
hdrhistogram = { version = "7", default-features = false }
http = "1"
httparse = "1"
memchr = "2"
parking_lot = "0.12"
rusqlite = { version = "*", features = ["bundled"] }
serde_json = "1"
subtle = "2"
tokio = { version = "1", features = ["io-util", "macros", "net", "rt-multi-thread", "signal", "sync", "time"] }
url = "2"
