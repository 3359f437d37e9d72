[package]
name = "nvproton"
version = "0.1.0"
edition = "2021"
publish = false

[dependencies]
anyhow = "*"
clap = { version = "*", features = ["derive"] }
directories = "*"
dirs = "*"
env_logger = "*"
glob = "*"
hex = "*"
libloading = "*"
log = "*"
rusqlite = { version = "*", features = ["bundled"] }
serde = { version = "*", features = ["derive"] }
serde_json = "*"
serde_yaml = "*"
sha2 = "*"
thiserror = "*"
toml = "*"
walkdir = "*"
