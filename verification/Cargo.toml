[package]
name = "config_manager"
version = "0.1.0"
edition = "2021"
publish = false

[dependencies]
regex = "1"
serde = { version = "1", features = ["derive"] }
serde_json = "1"
serde_yaml = "0.9"
toml = "0.8"
clap = "3"
slog = "2"
slog-term = "2"
slog-async = "2"
crossbeam = "0.8"
notify = "6"
thiserror = "1"
