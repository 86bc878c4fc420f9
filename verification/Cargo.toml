[package]
name = "wlmatrix"
version = "0.1.0"
edition = "2021"
publish = false

[dependencies]
ab_glyph = "0.2"
gif = "0.13"
png = "0.17"
softbuffer = { version = "0.4", default-features = false, features = ["wayland", "wayland-dlopen"] }
winit = { version = "0.30", default-features = false, features = ["rwh_06", "wayland", "wayland-dlopen"] }
