[package]
name = "rust_dock"
version = "0.1.0"
edition = "2021"
publish = false

[dependencies]
freedesktop-desktop-entry = "=0.7.19"
gettext-rs = { version = "=0.7.7", features = ["gettext-system"] }
dirs = "=7.0.0"
rust-ini = "=0.21.3"
serde_json = "=1.0.154"
log = "=0.4.35"
env_logger = "=0.11.11"
clap = { version = "=4.6.7", features = ["derive"] }
gtk4 = "=0.11.5"
gtk4-layer-shell = "=0.8.1"
glib = "=0.22.10"
gio = "=0.22.10"
notify = "=8.2.1"
signal-hook = "=0.4.6"
