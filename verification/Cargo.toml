[package]
name = "creeper-term"
version = "0.1.0"
edition = "2021"
publish = false

[dependencies]
anyhow = "1"
dirs = "5"
env_logger = "0.11"
flate2 = "1"
iced = { version = "0.13", default-features = false, features = ["tiny-skia", "tokio"] }
log = "0.4"
portable-pty = "0.8"
serde = { version = "1", features = ["derive"] }
smol_str = "0.2"
ssh2 = "0.9"
tar = "0.4"
tokio = { version = "1", features = ["time", "rt"] }
toml = "0.8"
