[package]
name = "crop_hypr"
version = "0.1.0"
edition = "2021"
publish = false

[dependencies]
image = { version = "=0.25.10", default-features = false, features = ["png"] }
shell-words = "=1.1.1"
serde = { version = "=1.0.229", features = ["derive"] }
serde_json = "=1.0.154"
toml = "=0.9.8"
dirs = "=6.0.0"
chrono = "=0.4.45"
thiserror = "=2.0.21"
clap = { version = "=4.6.7", features = ["derive"] }
anyhow = "=1.0.104"
notify-rust = "=4.18.2"
wayland-client = "=0.31.15"
wayland-protocols = { version = "=0.32.13", features = ["client", "unstable"] }
wayland-protocols-wlr = { version = "=0.3.12", features = ["client"] }
memmap2 = "=0.9.12"
nix = { version = "=0.30.1", features = ["mman", "fs"] }
tokio = { version = "=1.54.1", features = ["rt"] }
ashpd = { version = "=0.13.13", features = ["screencast"] }
pipewire = "=0.10.1"
