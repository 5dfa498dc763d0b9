[package]
name = "exploring_kafka"
version = "0.1.0"
edition = "2021"
publish = false

[dependencies]
anyhow = "*"
clap = { version = "*", features = ["derive"] }
futures = "*"
log = "*"
rdkafka = "*"
simple_logger = "*"
tokio = { version = "*", features = ["rt-multi-thread", "macros", "time"] }
