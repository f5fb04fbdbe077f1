[package]
name = "tectonic_plate_simulator"
version = "0.1.0"
edition = "2021"
publish = false

[dependencies]
hexasphere = "=19.0.0"
bytemuck = "=1.25.2"
bevy = { version = "=0.17.3", default-features = false, features = ["std", "bevy_asset", "bevy_render", "bevy_core_pipeline", "bevy_pbr", "bevy_gizmos"] }
bevy_panorbit_camera = { version = "0.30", default-features = false }
