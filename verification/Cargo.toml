[package]
name = "pop_mail_server"
version = "0.1.0"
edition = "2021"
publish = false

[dependencies]
argon2 = "0.5"
md5 = "0.7"
hex = "0.4"
toml = "0.8"
serde = { version = "1", features = ["derive"] }
thiserror = "1"
anyhow = "1"
tokio = { version = "1", features = ["full"] }
tokio-rustls = "0.26"
rustls = "0.23"
rustls-pemfile = "2"
tracing = "0.1"
tracing-subscriber = "0.3"
clap = { version = "4", features = ["derive", "env"] }
notify = "6"
reqwest = { version = "0.12", features = ["json"] }
chrono = "0.4"
governor = "0.6"
axum = "0.7"
tower-http = { version = "0.5", features = ["cors", "trace"] }
async-trait = "0.1"
async-imap = "0.9"
async-native-tls = "0.5"
async-std = "1"
zeroize = "1"

[dev-dependencies]
serde_json = "1"
tempfile = "3"
