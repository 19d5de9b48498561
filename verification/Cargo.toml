[package]
name = "lixun"
version = "0.1.0"
edition = "2021"
publish = false

[dependencies]
anyhow = "=1.0.104"
async-channel = "=2.5.0"
bytes = "=1.12.1"
bzip2 = "=0.6.1"
chrono = { version = "=0.4.45", features = ["serde"] }
clap = { version = "=4.6.7", features = ["derive"] }
dirs = "=6.0.0"
flate2 = "=1.1.10"
gdk4-wayland = { version = "=0.11.5", features = ["wayland_crate"] }
gtk4 = { version = "=0.11.5", features = ["v4_10"] }
html2text = "=0.12.6"
libc = "=0.2.191"
mail-parser = "=0.11.9"
notify = "=8.2.1"
serde = { version = "=1.0.229", features = ["derive"] }
serde_json = "=1.0.154"
sevenz-rust2 = "=0.24.2"
sha2 = "=0.10.9"
syntect = { version = "=5.3.0", default-features = false, features = ["default-fancy"] }
tantivy = "=0.25.0"
tar = "=0.4.46"
tokio = { version = "=1.54.1", features = ["rt-multi-thread", "macros", "sync", "time", "net", "io-util", "fs"] }
tokio-util = { version = "=0.7.20", features = ["codec"] }
unicode-normalization = "=0.1.26"
walkdir = "=2.5.0"
wayland-client = "=0.31.15"
wayland-protocols = { version = "=0.32.13", features = ["client", "unstable"] }
zip = { version = "=7.4.0", default-features = false, features = ["deflate"] }
zstd = "=0.13.4"
