[package]
name = "janus_sfu"
version = "0.1.0"
edition = "2021"
publish = false

[dependencies]
serde_json = "=1.0.151"
jsonwebtoken = { version = "=11.1.0", features = ["rust_crypto"] }
serde = { version = "=1.0.229", features = ["derive"] }
rust-ini = "=0.21.3"
janus-plugin = "=0.13.0"
num_cpus = "=1.17.0"
rb = "=0.4.1"
rmp-serde = "=1.3.1"
