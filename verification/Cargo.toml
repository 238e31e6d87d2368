[package]
name = "xpm"
version = "0.1.0"
edition = "2021"
publish = false

[dependencies]
alpm = "*"
async-trait = "0.1"
chrono = "0.4"
flate2 = "1"
libc = "0.2"
libflatpak = "*"
open = "5"
serde = { version = "1", features = ["derive"] }
serde_json = "1"
slint = { version = "1", default-features = false, features = ["compat-1-2", "std"] }
tokio = { version = "1", features = ["full"] }
tracing = "0.1"
tracing-subscriber = "0.3"
