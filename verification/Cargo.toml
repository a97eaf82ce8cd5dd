[package]
name = "tcp_events"
version = "0.1.0"
edition = "2021"
publish = false

[dependencies]
futures = "0.3"
iced = { version = "0.3", features = ["tokio"] }
iced_futures = { version = "0.3", features = ["tokio"] }
iced_native = "0.4"
tokio = { version = "1", features = ["net", "io-util"] }
