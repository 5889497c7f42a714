[package]
name = "strategy_game"
version = "0.1.0"
edition = "2021"
publish = false

[dependencies]
bevy = { version = "0.14", default-features = false, features = ["bevy_asset", "bevy_state"] }
bevy_window = "0.14"
itertools = "0.13"
ron = "0.8"
serde = { version = "1", features = ["derive"] }
thiserror = "1"
