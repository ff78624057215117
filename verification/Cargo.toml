[package]
name = "omarchy_portal"
version = "0.1.0"
edition = "2021"
publish = false

[dependencies]
glob = "0.3"
mime_guess = "2"
url = "2"
toml = "0.8"
serde = { version = "1", features = ["derive"] }
serde_json = "1"
anyhow = "1"
dirs = "*"
libc = "0.2"
zbus = { version = "5", default-features = false, features = ["tokio"] }
zvariant = "5"
tokio = { version = "1", features = ["full"] }
tokio-util = "0.7"
tracing = "0.1"
tracing-subscriber = "0.3"
futures = "0.3"
chrono = { version = "0.4", default-features = false, features = ["clock", "std"] }
notify = "*"
eframe = { version = "0.31", default-features = false, features = ["glow", "wayland", "x11", "default_fonts"] }
egui = { version = "0.31", default-features = false, features = ["default_fonts"] }
winit = { version = "0.30", default-features = false, features = ["wayland", "x11"] }
image = { version = "0.25", default-features = false, features = ["png", "jpeg"] }
