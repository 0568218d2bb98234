[package]
name = "longlens"
version = "0.1.0"
edition = "2021"
publish = false

[dependencies]
keycode = "*"
uuid = { version = "1", features = ["v4"] }
secrecy = "0.10"
serde = { version = "1", features = ["derive"] }
serde_json = "1"
tracing = "0.1"
async-channel = "2"
tokio = { version = "1", features = ["sync"] }
oo7 = "*"
gtk4 = "*"
libadwaita = "*"
gettext-rs = "*"
ashpd = "*"
async-io = "2"
