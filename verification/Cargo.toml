[package]
name = "moosereader"
version = "0.1.0"
edition = "2021"
publish = false

[dependencies]
textwrap = "0.16"
roxmltree = "0.20"
zip = { version = "2", default-features = false, features = ["deflate"] }
image = { version = "0.25", default-features = false, features = ["png", "jpeg", "gif", "bmp", "webp"] }
crossterm = "0.28"
serde = { version = "1", features = ["derive"] }
serde_json = "1"
