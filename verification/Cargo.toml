[package]
name = "game_config_edit"
version = "0.1.0"
edition = "2021"
publish = false

[dependencies]
csv = "=1.4.0"
serde_json = { version = "=1.0.154", features = ["preserve_order"] }
serde = { version = "=1.0.229", features = ["derive"] }
blake3 = "=1.8.7"
walkdir = "=2.5.0"
directories = "=6.0.0"
sys-locale = "=0.3.2"
tempfile = "=3.27.0"
notify = "=8.2.1"
tokio = { version = "=1.54.1", features = ["sync", "time", "rt", "macros"] }
clap = { version = "=4.6.7", features = ["derive"] }
