[package]
name = "pixelate_mesh"
version = "0.1.0"
edition = "2021"
publish = false

[dependencies]
bevy = { version = "0.16", default-features = false, features = ["bevy_render", "bevy_pbr", "bevy_scene", "bevy_asset", "bevy_core_pipeline"] }
