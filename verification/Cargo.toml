[package]
name = "shardgrid"
version = "0.1.0"
edition = "2021"
publish = false

[dependencies]
bevy = { version = "0.17", default-features = false, features = ["std"] }
bincode = "1"
bytes = "1"
deadpool-redis = "*"
maxminddb = "*"
rand = "*"
redis = "*"
rocket = { version = "0.5", features = ["json"] }
serde = { version = "1", features = ["derive"] }
serde_json = "1"
uuid = { version = "1", features = ["v4"] }
