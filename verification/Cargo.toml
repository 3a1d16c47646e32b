[package]
name = "whisper_lite"
version = "0.1.0"
edition = "2021"
publish = false

[dependencies]
anyhow = "1"
arboard = { version = "3", default-features = false }
clap = { version = "4", features = ["derive"] }
core-foundation = "*"
core-graphics = "*"
cpal = "0.15"
enigo = { version = "*", default-features = false, features = ["x11rb"] }
global-hotkey = "*"
hound = "3"
libc = "0.2"
parakeet-rs = "*"
reqwest = { version = "0.12", default-features = false, features = ["blocking"] }
serde = { version = "1", features = ["derive"] }
serde_json = "1"
whisper-rs = "*"
