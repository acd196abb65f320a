[package]
name = "repairman"
version = "0.1.0"
edition = "2021"
publish = false

[dependencies]
blake2 = "=0.10.6"
flate2 = "=1.1.10"
clap = { version = "4", features = ["derive"] }
rayon = "1"
tokio = { version = "1", features = ["full"] }
file-hashing = "=0.1.2"
