[package]
name = "inferlab"
version = "0.12.0"
edition = "2021"
publish = false

[dependencies]
fs2 = "0.4"
serde = { version = "1", features = ["derive"] }
serde_json = "1"
sha2 = "0.10"
thiserror = "2"
time = "0.3"
toml = "0.9"
wait-timeout = "0.2"

[dev-dependencies]
tempfile = "3"
