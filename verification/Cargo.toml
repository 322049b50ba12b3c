[package]
name = "cursed_warden"
version = "0.1.0"
edition = "2021"
publish = false

[dependencies]
rand = "0.8"
serde = { version = "1", features = ["derive"] }
serde_json = "1"
bevy = { version = "0.15", default-features = false, features = ["bevy_state", "bevy_ui", "bevy_picking", "bevy_ui_picking_backend", "bevy_text", "bevy_gizmos", "default_font"] }
