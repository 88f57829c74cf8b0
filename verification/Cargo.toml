[package]
name = "meowbox"
version = "0.1.0"
edition = "2021"
publish = false

[dependencies]
mail-parser = { version = "=0.11.9", features = ["full_encoding"] }
chrono = "=0.4.45"
serde = { version = "=1.0.229", features = ["derive"] }
serde_json = "=1.0.154"
rusqlite = { version = "=0.32.1", features = ["bundled"] }
tokio = { version = "=1.54.1", features = ["full"] }
async-imap = { version = "=0.10.4", default-features = false, features = ["runtime-tokio"] }
tokio-rustls = { version = "=0.26.6", default-features = false, features = ["ring", "tls12", "logging"] }
webpki-roots = "=0.26.11"
futures = "=0.3.34"
keyring = "=3.6.3"
rpassword = "=7.5.4"
clap = { version = "=4.6.7", features = ["derive", "env"] }
anyhow = "=1.0.104"
thiserror = "=1.0.69"
tracing = "=0.1.44"
tracing-subscriber = { version = "=0.3.23", features = ["env-filter"] }
dirs = "=5.0.1"
async-trait = "=0.1.92"
rmcp = { version = "*", features = ["server", "macros", "transport-io"] }
