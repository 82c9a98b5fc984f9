[package]
name = "rpgpr"
version = "0.1.0"
edition = "2021"
publish = false

[dependencies]
bevy = { version = "0.15", default-features = false, features = ["bevy_asset", "bevy_core_pipeline", "bevy_render", "bevy_sprite", "bevy_state", "bevy_text", "bevy_ui", "bevy_window", "png"] }
bevy_asset_loader = { version = "0.22", features = ["standard_dynamic_assets"] }
hashbrown = "0.14"
log = "0.4"
rand = "0.8"
ron = "0.8"
serde = { version = "1", features = ["derive"] }
