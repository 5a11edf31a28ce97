[package]
name = "new_voxel_testing"
version = "0.1.0"
edition = "2021"
publish = false

[dependencies]
bevy = { version = "0.15", default-features = false, features = ["bevy_asset", "bevy_color", "bevy_core_pipeline", "bevy_pbr", "bevy_render"] }
bracket-noise = "0.8"
indexmap = "2"
rand = "0.9"
