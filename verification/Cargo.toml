[package]
name = "spawnhere"
version = "0.1.0"
edition = "2021"
publish = false

[dependencies]
anyhow = "=1.0.104"
calloop = "=0.13.0"
calloop-wayland-source = "=0.3.0"
clap = { version = "=4.6.7", features = ["derive"] }
fontdue = "=0.9.5"
freedesktop-desktop-entry = { version = "=0.7.19", default-features = false }
freedesktop-icons = "=0.4.0"
nucleo-matcher = "=0.3.1"
resvg = "=0.45.1"
serde = { version = "=1.0.229", features = ["derive"] }
serde_json = "=1.0.154"
smithay-client-toolkit = "=0.19.2"
tiny-skia = "=0.11.4"
toml = "=0.8.23"
usvg = "=0.45.1"
wayland-client = "=0.31.15"
