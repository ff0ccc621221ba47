[package]
name = "pargz"
version = "0.1.0"
edition = "2021"
publish = false

[dependencies]
bytes = "1"
flate2 = "1"
futures = "0.3"
num_cpus = "1"
thiserror = "1"
tokio = { version = "1", features = ["rt-multi-thread", "sync"] }
