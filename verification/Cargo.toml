[package]
name = "anytls"
version = "0.3.0"
edition = "2021"
publish = false

[dependencies]
bytes = "1"
indexmap = "2"
percent-encoding = "2"
sha2 = "0.10"
socks5-impl = { version = "0.8", features = ["tokio"] }
url = "2"
uuid = { version = "1", features = ["serde"] }
async-trait = "0.1"
clap = { version = "4", features = ["derive", "cargo"] }
ctrlc2 = { version = "*", features = ["tokio"] }
env_logger = "0.11"
futures = "0.3"
http-body-util = "0.1"
hyper = { version = "1", features = ["http1", "server"] }
hyper-util = { version = "0.1", features = ["tokio"] }
log = "0.4"
parking_lot = "0.12"
reqwest = { version = "0.12", default-features = false, features = ["json", "rustls-tls"] }
rustls = { version = "0.23", default-features = false, features = ["ring", "std", "tls12", "logging"] }
rustls-pemfile = "2"
serde = { version = "1", features = ["derive"] }
serde_json = "1"
socket2 = { version = "0.6", features = ["all"] }
tokio = { version = "1", features = ["full"] }
tokio-rustls = { version = "0.26", default-features = false, features = ["ring", "tls12", "logging"] }
tokio-util = "0.7"
