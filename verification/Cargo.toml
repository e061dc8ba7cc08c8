[package]
name = "discrip"
version = "0.1.0"
edition = "2021"
publish = false

[dependencies]
chrono = { version = "0.4", features = ["serde"] }
clap = { version = "4", features = ["derive"] }
ctrlc = "3"
dialoguer = { version = "*", features = ["fuzzy-select"] }
dirs = "*"
ffmpeg-next = "*"
indicatif = "*"
libbluray-sys = "*"
libc = "0.2"
reqwest = { version = "0.12", default-features = false, features = ["blocking", "json", "rustls-tls"] }
serde = { version = "1", features = ["derive"] }
serde_json = "1"
toml = "*"
uuid = { version = "1", features = ["v4", "serde"] }
