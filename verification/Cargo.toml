[package]
name = "writee"
version = "0.1.0"
edition = "2021"
publish = false

[dependencies]
serde = { version = "1", features = ["derive"] }
serde_json = "1"
glam = { version = "*", features = ["serde", "bytemuck"] }
bytemuck = { version = "1", features = ["derive"] }
rusqlite = { version = "*", features = ["bundled"] }
toml = "*"
anyhow = "1"
thiserror = "*"
log = "0.4"
fs2 = "0.4"
directories-next = "2"
