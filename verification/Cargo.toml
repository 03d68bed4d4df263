[package]
name = "asha_ui"
version = "0.1.0"
edition = "2021"
publish = false

[dependencies]
bevy_app = "=0.19.0"
bevy_asset = "=0.19.0"
bevy_camera = "=0.19.0"
bevy_color = "=0.19.0"
bevy_ecs = "=0.19.0"
bevy_image = "=0.19.0"
bevy_input = "=0.19.0"
bevy_input_focus = "=0.19.0"
bevy_log = "=0.19.0"
bevy_math = "=0.19.0"
bevy_picking = "=0.19.0"
bevy_platform = "=0.19.0"
bevy_reflect = "=0.19.0"
bevy_scene = "=0.19.0"
bevy_text = "=0.19.0"
bevy_ui = "=0.19.0"
bevy_ui_widgets = "=0.19.0"
bevy_window = "=0.19.0"
parley = { version = "=0.9.0", default-features = false, features = ["std"] }
smallvec = "=1.16.4"
smol_str = "=0.3.7"
spirv-builder = { version = "=0.11.0", default-features = false }
swash = "=0.2.10"
