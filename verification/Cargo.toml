[package]
name = "cameo_core"
version = "0.1.0"
edition = "2021"
publish = false

[dependencies]
getrandom = "0.3"
sha2 = "0.10"
serde = { version = "1", features = ["derive"] }
serde_json = "1"
rustls = "0.23"
rustls-pki-types = "1"
rcgen = "0.13"
clap = { version = "4", features = ["derive", "env"] }
ctrlc = "3"
anyhow = "1"
fs2 = "0.4"
tracing = "0.1"
tracing-subscriber = { version = "0.3", features = ["env-filter"] }
