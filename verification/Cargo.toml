[package]
name = "cosmic_comp"
version = "0.1.0"
edition = "2021"
publish = false

[dependencies]
anyhow = "=1.0.104"
serde = { version = "=1.0.229", features = ["derive"] }
serde_json = "=1.0.154"
tracing = "=0.1.44"
smithay = { version = "=0.7.0", default-features = false, features = ["wayland_frontend"] }
cosmic-protocols = { version = "=0.2.0", default-features = false, features = ["server"] }
wayland-backend = "=0.3.17"
