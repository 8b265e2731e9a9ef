[package]
name = "bezier_patch"
version = "0.1.0"
edition = "2021"
publish = false

[dependencies]
bevy = { version = "0.8", default-features = false, features = ["render", "bevy_asset"] }
clap = { version = "3", features = ["derive"] }
