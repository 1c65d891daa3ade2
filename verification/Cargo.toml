[package]
name = "motiongfx"
version = "0.1.0"
edition = "2021"
publish = false

[dependencies]
bevy_app = { version = "0.18", default-features = false, features = ["std"] }
bevy_asset = { version = "0.18", default-features = false }
bevy_ecs = { version = "0.18", default-features = false, features = ["std", "bevy_reflect"] }
bevy_platform = { version = "0.18", default-features = false, features = ["std", "alloc"] }
bevy_reflect = { version = "0.18", default-features = false, features = ["std"] }
bevy_remote = { version = "0.18", default-features = false }
bevy_time = { version = "0.18", default-features = false, features = ["std", "bevy_reflect"] }
bevy_transform = { version = "0.18", default-features = false, features = ["std", "bevy-support"] }
field_path = "*"
mitex = "*"
nonempty = "*"
peniko = "*"
serde = { version = "1", features = ["derive"] }
serde_json = "1"
ttf-parser = "*"
