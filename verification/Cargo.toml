[package]
name = "speller"
version = "0.1.0"
edition = "2021"
publish = false

[dependencies]
unicode-segmentation = "1"
colored = "*"
serde = { version = "1", features = ["derive"] }
toml = "*"
