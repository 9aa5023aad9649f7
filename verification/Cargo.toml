[package]
name = "linux_soundboard_ui"
version = "0.1.0"
edition = "2021"
publish = false

[dependencies]
serde = { version = "1", features = ["derive"] }
serde_json = "1"
glib = "0.20"
gio = "0.20"
gtk4 = "0.9"
log = "0.4"
