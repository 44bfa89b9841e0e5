[package]
name = "miryam"
version = "0.1.0"
edition = "2021"
publish = false

[dependencies]
anyhow = "*"
chrono = "*"
rand = "*"
serde = { version = "*", features = ["derive"] }
serde_json = "*"
toml = "*"
gtk4 = "*"
gtk4-layer-shell = "*"
poppler-rs = "*"
cairo-rs = "*"
