[package]
name = "batten"
version = "0.1.0"
edition = "2021"
publish = false

[dependencies]
anyhow = "=1.0.104"
clap = { version = "=4.6.7", features = ["derive"] }
flate2 = "=1.1.10"
getrandom = "=0.3.4"
gix = { version = "=0.90.0", default-features = false, features = ["sha1"] }
gix-packetline = { version = "=0.24.1", features = ["blocking-io"] }
imara-diff = "=0.2.0"
schemars = "=1.2.3"
serde = { version = "=1.0.229", features = ["derive"] }
serde_json = "=1.0.154"
sha2 = "=0.11.1"
toml = "=1.1.8"
