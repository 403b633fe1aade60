[package]
name = "contribution_wallpaper"
version = "0.1.0"
edition = "2021"
publish = false

[dependencies]
embedded-graphics = "0.8"
regex = "1"
time = { version = "0.3", features = ["local-offset"] }
serde = { version = "1", features = ["derive"] }
serde_json = "1"
fs-err = "3"
reqwest = { version = "0.12", default-features = false, features = ["blocking", "rustls-tls"] }
notify = "8"
softbuffer = "0.4"
winit = "0.30"
x11-dl = "2"
