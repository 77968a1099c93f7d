[package]
name = "monotile"
version = "0.1.0"
edition = "2021"
publish = false

[dependencies]
slotmap = "1"
smithay = { version = "*", default-features = false, features = ["desktop", "wayland_frontend", "renderer_glow", "backend_winit"] }
tracing = "0.1"
tracing-subscriber = { version = "0.3", features = ["env-filter"] }
