[package]
name = "rogger"
version = "0.1.0"
edition = "2021"
publish = false

[dependencies]
regex = "1"
unicode-segmentation = "1"
unicode-width = "0.1"
ssh2 = "0.9"
tui = "0.19"
crossterm = "0.25"
toml = "*"
serde = { version = "1", features = ["derive"] }
