[package]
name = "deadpool"
version = "0.1.0"
edition = "2021"
publish = false

[dependencies]
async-trait = "0.1"
crossbeam-utils = "0.8"
num_cpus = "1"
tokio = { version = "1", default-features = false, features = ["rt", "sync", "time"] }
