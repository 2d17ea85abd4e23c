[package]
name = "domus"
version = "0.1.0"
edition = "2021"
publish = false

[dependencies]
srp = "*"
sha2 = "0.10"
rand = "0.8"
mdns-sd = "*"
reqwest = { version = "*", default-features = false }
tokio = { version = "1", features = ["rt-multi-thread", "macros"] }
clap = "4"
env_logger = "*"
log = "*"
