[package]
name = "voicepipe"
version = "0.1.0"
edition = "2021"
publish = false

[dependencies]
anyhow = "*"
cpal = "*"
hound = "*"
reqwest = { version = "*", default-features = false, features = ["json", "rustls-tls"] }
rodio = "*"
serde_json = "*"
tokio = { version = "*", features = ["full"] }
whisper-rs = "*"
