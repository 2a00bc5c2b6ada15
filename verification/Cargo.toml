[package]
name = "nirimap"
version = "0.1.0"
edition = "2021"
publish = false

[dependencies]
anyhow = "1"
dirs = "*"
gtk4 = "*"
gtk4-layer-shell = "*"
niri-ipc = "*"
notify = "*"
pangocairo = "*"
serde = { version = "1", features = ["derive"] }
serde_json = "1"
toml = "*"
tracing = "*"
tracing-subscriber = { version = "*", features = ["env-filter"] }
