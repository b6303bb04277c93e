[package]
name = "collab"
version = "0.1.0"
edition = "2021"
publish = false

[dependencies]
ed25519-dalek = "2"
aes-gcm = "0.10"
getrandom = "0.2"
openmls = "0.6"
openmls_rust_crypto = "0.3"
openmls_basic_credential = "0.3"
yrs = "0.21"
serde = { version = "1", features = ["derive"] }
serde_json = "1"
base64 = "0.22"
anyhow = "1"
thiserror = "1"
tokio = { version = "1", features = ["rt-multi-thread", "macros", "net", "sync", "time", "signal"] }
tokio-tungstenite = "0.24"
futures = "0.3"
clap = { version = "4", features = ["derive"] }
tracing = "0.1"
tracing-subscriber = { version = "0.3", features = ["env-filter"] }
notify = "6"
notify-debouncer-mini = "0.4"
