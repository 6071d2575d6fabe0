[package]
name = "save_them_fools"
version = "0.1.0"
edition = "2021"
publish = false

[dependencies]
rand = "0.9"
bevy = { version = "0.16", default-features = false, features = ["std", "bevy_asset", "bevy_color", "bevy_core_pipeline", "bevy_gltf", "bevy_pbr", "bevy_render", "bevy_scene", "bevy_text", "bevy_ui", "bevy_window"] }
avian3d = { version = "0.3", default-features = false, features = ["3d", "f32", "parry-f32", "collider-from-mesh", "bevy_scene"] }
bevy_mod_outline = { version = "0.10", default-features = false }
