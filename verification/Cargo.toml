[package]
name = "bloatware"
version = "0.1.0"
edition = "2021"
publish = false

[dependencies]
rand = "=0.9.5"
rand_chacha = "=0.9.0"
serde = { version = "1", features = ["derive"] }
serde_json = "1"
bevy = { version = "=0.16.1", default-features = false, features = ["std", "bevy_asset", "bevy_audio", "bevy_core_pipeline", "bevy_render", "bevy_sprite", "bevy_text", "bevy_ui", "bevy_gizmos", "bevy_window"] }
