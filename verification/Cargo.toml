[package]
name = "emergence"
version = "0.1.0"
edition = "2021"
publish = false

[dependencies]
cbindgen = "0.29"
csbindgen = "1"
eframe = { version = "0.33", default-features = false, features = ["default_fonts", "glow", "wayland", "x11"] }
image = { version = "0.25", default-features = false, features = ["png"] }
libloading = "0.8"
serde = { version = "1", features = ["derive"] }
serde_json = "1"
slotmap = "1"
