[package]
name = "cheburcheck"
version = "0.1.0"
edition = "2021"
publish = false

[dependencies]
ipnet = "=2.12.2"
ipnet-trie = "=0.3.1"
trie-rs = "=0.4.2"
url = "=2.5.8"
maxminddb = "=0.26.0"
csv = "=1.4.0"
serde = { version = "=1.0.229", features = ["derive"] }
tokio = { version = "=1.54.1", features = ["full"] }
reqwest = { version = "=0.12.28", default-features = false, features = ["rustls-tls", "stream"] }
hickory-resolver = { version = "=0.25.2", features = ["https-ring", "webpki-roots"] }
chrono = "=0.4.45"
clap = { version = "=4.6.7", features = ["derive", "env"] }
anyhow = "=1.0.104"
log = "=0.4.34"
env_logger = "=0.11.11"
futures = "=0.3.34"
indicatif = "=0.17.11"
rmp-serde = "=1.3.1"
libc = "=0.2.191"
