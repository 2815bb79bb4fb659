[package]
name = "driftwm"
version = "0.1.0"
edition = "2021"
publish = false

[dependencies]
smithay = { version = "=0.7.0", default-features = false, features = ["renderer_gl", "wayland_frontend", "desktop"] }
tiff = "=0.11.3"
xcursor = "=0.3.11"
libc = "=0.2.191"
