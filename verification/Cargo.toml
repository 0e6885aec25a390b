[package]
name = "rusty_crabs"
version = "0.1.0"
edition = "2021"
publish = false

[dependencies]
rand = "=0.8.8"
uuid = { version = "=0.8.2", features = ["v4"] }
bevy = { version = "=0.6.1", default-features = false, features = ["bevy_winit", "render", "x11"] }
serde = { version = "1", features = ["derive"] }
typetag = "=0.1.8"
