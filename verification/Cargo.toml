[package]
name = "murmure"
version = "0.1.0"
edition = "2021"
publish = false

[dependencies]
anyhow = "1"
blake3 = "1"
chacha20poly1305 = { version = "0.11", features = ["zeroize"] }
crossterm = { version = "0.29", features = ["event-stream"] }
tokio-util = { version = "0.7", features = ["compat"] }
data-encoding = "2"
futures = "0.3"
postcard = { version = "1", features = ["use-std"] }
quinn = { version = "0.11", default-features = false, features = ["rustls-ring", "runtime-tokio"] }
rand = "0.8"
ratatui = { version = "0.30", default-features = false, features = ["crossterm_0_29"] }
rcgen = { version = "0.14", default-features = false, features = ["ring", "crypto"] }
rustls = { version = "0.23", default-features = false, features = ["ring", "std"] }
safelog = "0.9"
serde = { version = "1", features = ["derive"] }
tokio = { version = "1", features = ["full"] }
tor-hscrypto = "=0.44.0"
tor-llcrypto = "=0.44.0"
tracing = "0.1"
tracing-subscriber = { version = "0.3", features = ["env-filter"] }
zeroize = "1"
