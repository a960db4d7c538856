[package]
name = "dnsd"
version = "0.1.0"
edition = "2021"
publish = false

[dependencies]
anyhow = "=1.0.104"
arc-swap = "=1.9.3"
async-trait = "=0.1.92"
base64 = "=0.22.1"
clap = { version = "=4.6.7", features = ["derive"] }
data-encoding = "=2.11.1"
futures = "=0.3.34"
governor = "=0.10.4"
hickory-proto = { version = "=0.26.3", features = ["dnssec-ring"] }
ipnet = { version = "=2.12.2", features = ["serde"] }
libc = "=0.2.191"
moka = { version = "=0.12.16", features = ["future", "sync"] }
rand = "=0.10.3"
rustls = { version = "=0.23.46", default-features = false, features = ["std", "ring", "tls12", "logging"] }
rustls-acme = { version = "=0.15.4", default-features = false, features = ["ring", "tls12", "webpki-roots"] }
rustls-pki-types = "=1.15.1"
serde = { version = "=1.0.229", features = ["derive"] }
serde_json = "=1.0.154"
serde_yaml = "=0.9.34"
tokio = { version = "=1.54.1", features = ["full"] }
tokio-rustls = { version = "=0.26.6", default-features = false, features = ["ring", "tls12"] }
tracing = "=0.1.44"
tracing-subscriber = { version = "=0.3.23", features = ["env-filter"] }
webpki-roots = "=1.0.10"
x509-parser = "=0.18.1"

[dev-dependencies]
rcgen = { version = "=0.14.10", default-features = false, features = ["ring", "pem"] }
