[package]
name = "ipfusch"
version = "0.1.0"
edition = "2021"
publish = false

[dependencies]
anyhow = "1"
bincode = "1"
clap = { version = "4", features = ["derive"] }
clap_complete = "4"
crossterm = { version = "0.28", features = ["event-stream"] }
futures = "0.3"
hdrhistogram = { version = "7", default-features = false }
humantime = "2"
indicatif = "0.17"
quinn = { version = "0.11", default-features = false, features = ["runtime-tokio", "rustls-ring"] }
ratatui = "0.29"
rustls = { version = "0.23", default-features = false, features = ["ring", "std", "tls12"] }
rustls-pemfile = "2"
serde = { version = "1", features = ["derive"] }
serde_json = "1"
sha2 = "0.10"
thiserror = "2"
tokio = { version = "1", features = ["full"] }
