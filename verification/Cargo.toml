[package]
name = "solder"
version = "0.1.0"
edition = "2021"
publish = false

[dependencies]
regex = "1"
serde = { version = "1", features = ["derive"] }
serde_json = "1"
directories = "6"
iced = { version = "0.14", default-features = false, features = ["canvas", "tiny-skia", "x11", "wayland", "thread-pool"] }
pipewire = "*"
