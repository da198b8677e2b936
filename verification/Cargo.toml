[package]
name = "gm2tiled"
version = "0.1.0"
edition = "2021"
publish = false

[dependencies]
quick-xml = "0.36"
image = { version = "0.25", default-features = false, features = ["png"] }
serde = { version = "1", features = ["derive"] }
serde_json = "1"
clap = { version = "4", features = ["derive"] }
anyhow = "1"
