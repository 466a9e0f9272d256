[package]
name = "keysynth"
version = "0.1.0"
edition = "2021"
publish = false

[dependencies]
sdl2 = "*"
serde = { version = "1", features = ["derive"] }
serde_yaml = "*"
libloading = "*"
gl = "*"
