[package]
name = "mirage"
version = "0.1.0"
edition = "2021"
publish = false

[dependencies]
rand = "0.8"
uuid = "1"
anyhow = "1"
clap = { version = "4", features = ["derive"] }
serde = { version = "1", features = ["derive"] }
serde_json = "1"
serde_yaml = "0.9"
thiserror = "1"
libloading = "0.8"
nix = { version = "0.29", features = ["hostname", "user"] }
reqwest = { version = "0.12", default-features = false, features = ["blocking", "rustls-tls"] }
get_if_addrs = "0.5"
zbus = "3"
tokio = { version = "1", features = ["rt-multi-thread"] }
crossterm = "0.28"
ratatui = "0.29"
