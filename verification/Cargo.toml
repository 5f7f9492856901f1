[package]
name = "rks"
version = "0.1.0"
edition = "2021"
publish = false

[dependencies]
anyhow = "1"
async-trait = "0.1"
axum = "0.8"
base64 = "0.22"
bincode = "1.3"
chrono = "0.4"
clap = { version = "4", features = ["derive"] }
dotenvy = "0.15"
env_logger = "0.11"
etcd-client = "*"
hickory-proto = "0.25"
hickory-server = "0.25"
ipnetwork = "*"
log = "0.4"
lru = "*"
nftables = "*"
quinn = { version = "0.11", default-features = false, features = ["runtime-tokio", "rustls-ring"] }
rand = "0.9"
rcgen = "0.12"
regex = "1"
reqwest = { version = "0.12", default-features = false, features = ["json", "rustls-tls"] }
rustls = { version = "0.23", default-features = false, features = ["ring", "std"] }
rustls-pemfile = "2"
serde = { version = "1", features = ["derive"] }
serde_json = "1"
serde_yaml = "0.9"
time = "0.3"
tokio = { version = "1", features = ["full"] }
uuid = { version = "1", features = ["v4"] }
x509-parser = "0.16"
