[package]
name = "nypa_db_connector"
version = "0.1.0"
edition = "2021"
publish = false

[dependencies]
bevy = { version = "=0.17.3", default-features = false, features = ["std", "multi_threaded", "bevy_asset", "bevy_color", "bevy_core_pipeline", "bevy_gltf", "bevy_log", "bevy_pbr", "bevy_picking", "bevy_render", "bevy_scene", "png"] }
bevy_app = "=0.17.3"
bevy_ecs = "=0.17.3"
dirs = "=6.0.0"
rand = "=0.9.5"
serde = { version = "=1.0.229", features = ["derive"] }
serde_json = "=1.0.154"
triple_buffer = "=8.1.1"
ureq = { version = "=3.5.1", default-features = false, features = ["json"] }
