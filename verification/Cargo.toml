[package]
name = "sprocket"
version = "0.1.0"
edition = "2021"
publish = false

[dependencies]
anyhow = "1"
base64 = "0.22"
blake3 = { version = "1", features = ["pure"] }
bstr = "1"
globset = "0.4"
serde = { version = "1", features = ["derive"] }
serde_json = "1"
sha2 = "0.10"
shlex = "1"
tempfile = "3"
thiserror = "2"
toml = "0.8"
uuid = { version = "1", features = ["v4"] }
wait-timeout = "0.2"
zstd = "0.13"
