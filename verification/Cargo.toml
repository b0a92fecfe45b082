[package]
name = "git_lfs_walrus"
version = "0.1.0"
edition = "2021"
publish = false

[dependencies]
anyhow = "=1.0.104"
base64 = "=0.22.1"
hex = "=0.4.3"
serde = { version = "=1.0.229", features = ["derive"] }
serde_json = "=1.0.151"
sha2 = "=0.10.9"
structopt = "=0.3.26"
tempfile = "=3.27.0"
tokio = { version = "=1.53.2", features = ["full"] }
