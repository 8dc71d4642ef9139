[package]
name = "pen_tool"
version = "0.1.0"
edition = "2021"
publish = false

[dependencies]
bevy = { version = "0.8", default-features = false, features = ["bevy_asset"] }
bevy-inspector-egui = { version = "0.13", default-features = false }
rand = "0.8"
rfd = "0.10"
serde = { version = "1", features = ["derive"] }
serde_json = "1"
