[package]
name = "gtfs_manager"
version = "0.1.0"
edition = "2021"
publish = false

[dependencies]
uuid = { version = "=1.29.0", features = ["v4"] }
druid = "=0.8.3"
gtfs-structures = { version = "=0.32.3", default-features = false }
rgb = "=0.8.53"
serde = { version = "=1.0.229", features = ["derive", "rc"] }
bincode = "=1.3.3"
clap = { version = "=3.2.25", features = ["derive"] }
chrono = "=0.4.45"
