[package]
name = "petal_browser"
version = "0.1.0"
edition = "2021"
publish = false

[dependencies]
lz4_flex = "0.11"
serde = { version = "1", features = ["derive"] }
serde_json = "1"
crossbeam-channel = "0.5"
winit = "0.29"
softbuffer = "0.4"
arboard = "3"
image = { version = "0.24", default-features = false, features = ["png"] }
libc = "0.2"
