[package]
name = "pawn_editor"
version = "0.1.0"
edition = "2021"
publish = false

[dependencies]
uuid = { version = "=1.29.0", features = ["v4", "serde"] }
macroquad = { version = "=0.4.16", features = ["glam-serde"] }
egui-macroquad = "=0.17.3"
ron = "=0.12.3"
serde = { version = "=1.0.229", features = ["derive"] }
bevy = { version = "=0.16.1", default-features = false }
