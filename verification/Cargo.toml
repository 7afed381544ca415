[package]
name = "rcon_rs"
version = "0.1.0"
edition = "2021"
publish = false

[dependencies]
bytes = "1"
rand = "0.8"
tokio = { version = "1", features = ["net", "time", "sync", "rt-multi-thread", "macros", "io-util"] }
tokio-util = { version = "0.7", features = ["codec"] }
futures = "0.3"
log = "0.4"
anyhow = "1"
async-trait = "0.1"
typemap = "0.3"
regex = "1"
dotenv = "0.15"
env_logger = "0.10"
