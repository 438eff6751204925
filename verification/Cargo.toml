[package]
name = "dns_block"
version = "0.1.0"
edition = "2021"
publish = false

[dependencies]
addr = "*"
chrono = "*"
clap = { version = "*", features = ["derive"] }
clap_mangen = "*"
env_logger = "*"
futures = "*"
hickory-resolver = "*"
log = "*"
num-format = "*"
rayon = "*"
regex = "*"
reqwest = { version = "*", default-features = false }
reqwest-middleware = "*"
reqwest-retry = "*"
roff = "*"
tokio = { version = "*", features = ["rt-multi-thread", "macros"] }
