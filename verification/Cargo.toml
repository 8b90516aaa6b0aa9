[package]
name = "chart_render"
version = "0.1.0"
edition = "2021"
publish = false

[dependencies]
anyhow = "=1.0.104"
macroquad = { version = "=0.3.26", default-features = false }
miniquad = "=0.3.16"
serde = { version = "=1.0.229", features = ["derive"] }
serde_json = "=1.0.154"
tempfile = "=3.27.0"
tokio = { version = "=1.54.1", features = ["fs"] }
