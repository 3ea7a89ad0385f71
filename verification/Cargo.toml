[package]
name = "ferrometer"
version = "0.5.0"
edition = "2021"
publish = false

[dependencies]
anyhow = "1"
async-trait = "0.1"
base64 = "0.22"
clap = { version = "4", features = ["derive"] }
flate2 = "1"
nix = { version = "*", features = ["fs", "feature"] }
procfs = "*"
prometheus-parse = "*"
prost = "*"
prost-types = "*"
regex = "1"
reqwest = { version = "0.13", default-features = false, features = ["rustls-no-provider"] }
rustls = { version = "0.23", default-features = false, features = ["ring", "std"] }
serde = { version = "1", features = ["derive"] }
snap = "1"
systemd = "*"
thiserror = "*"
tokio = { version = "1", features = ["rt", "macros", "time", "sync", "signal", "fs"] }
toml = "*"
tracing = "0.1"
tracing-subscriber = { version = "0.3", features = ["env-filter"] }
