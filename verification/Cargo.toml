[package]
name = "starforge"
version = "0.1.0"
edition = "2021"
publish = false

[dependencies]
anyhow = "=1.0.104"
serde = { version = "=1.0.229", features = ["derive"] }
serde_json = "=1.0.154"
sha2 = "=0.10.9"
hex = "=0.4.3"
base64 = "=0.22.1"
stellar-strkey = "=1.0.0"
ed25519-dalek = "=2.2.0"
stellar-xdr = "*"
toml = "*"
chrono = "0.4"
uuid = { version = "1", features = ["v4"] }
clap = { version = "4", features = ["derive"] }
thiserror = "*"
zeroize = "1"
colored = "*"
csv = "1"
dirs = "*"
reqwest = { version = "0.12", default-features = false, features = ["json"] }
rusqlite = { version = "*", features = ["bundled"] }
