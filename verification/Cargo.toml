[package]
name = "kafka_admin"
version = "0.1.0"
edition = "2021"
publish = false

[dependencies]
rdkafka = { version = "0.36", default-features = false }
serde = { version = "1", features = ["derive"] }
