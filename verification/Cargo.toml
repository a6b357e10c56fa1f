[package]
name = "game_net"
version = "0.1.0"
edition = "2021"
publish = false

[dependencies]
rand = "0.9"
serde = { version = "1", features = ["derive"] }
bincode = { version = "2", features = ["serde"] }
tokio = { version = "1", features = ["net", "sync", "rt", "rt-multi-thread", "macros", "io-util", "time"] }
bevy = { version = "0.16", default-features = false }
bevy_ecs = "0.16"
bevy-tokio-tasks = "0.16"
avian3d = { version = "0.3", default-features = false, features = ["3d", "f32", "parry-f32"] }
