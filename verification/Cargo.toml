[package]
name = "forgesworn_link"
version = "0.1.0"
edition = "2021"
publish = false

[dependencies]
anyhow = "1"
base64 = "=0.22.1"
bytes = "1"
clap = { version = "4", features = ["derive", "env"] }
ed25519-dalek = { version = "=2.2.0", features = ["rand_core", "pkcs8"] }
futures-util = { version = "0.3", features = ["sink"] }
hex = "=0.4.3"
hkdf = "=0.12.4"
http-body-util = "0.1"
hyper = { version = "1", features = ["client", "http1"] }
hyper-util = { version = "0.1", features = ["tokio"] }
if-addrs = "0.15"
k256 = { version = "=0.13.4", features = ["ecdh"] }
quinn = { version = "=0.11.12", default-features = false, features = ["runtime-tokio", "rustls-ring"] }
rand = "=0.8.8"
rcgen = { version = "=0.13.2", default-features = false, features = ["crypto", "pem", "ring"] }
rustls = { version = "=0.23.46", default-features = false, features = ["ring", "std", "tls12"] }
serde = { version = "1", features = ["derive"] }
serde_json = "1"
sha2 = "=0.10.9"
tokio = { version = "1", features = ["full"] }
tokio-rustls = { version = "0.26", default-features = false, features = ["ring", "tls12"] }
tokio-tungstenite = "0.24"
tracing = "0.1"
tracing-subscriber = { version = "0.3", features = ["env-filter"] }
url = "=2.5.8"
webpki-roots = "0.26"
x509-parser = "=0.16.0"
zeroize = "=1.9.1"
