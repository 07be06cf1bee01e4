[package]
name = "stream_shift"
version = "0.1.0"
edition = "2021"
publish = false

[dependencies]
clap = { version = "4", features = ["derive"] }
iso8601-timestamp = "0.2"
rdkafka = { version = "0.36", default-features = false }
tabled = "0.14"
uuid = { version = "1", features = ["v4"] }
