[package]
name = "gibfonts"
version = "0.1.0"
edition = "2021"
publish = false

[dependencies]
anyhow = "1"
human_format = "*"
log = "0.4"
native-windows-derive = "*"
native-windows-gui = "*"
progress-streams = "*"
serde = { version = "1", features = ["derive"] }
serde_json = "1"
simplog = "*"
tar = "0.4"
ureq = "2"
xz2 = "0.1"
