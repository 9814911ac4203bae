[package]
name = "bevy_mortar_bond"
version = "0.4.0"
edition = "2021"
publish = false

[dependencies]
bevy = { version = "0.18", default-features = false, features = ["bevy_asset", "bevy_text", "bevy_ui", "bevy_log"] }
mortar_compiler = "=0.5.3"
serde_json = "1"
