[package]
name = "e_tui"
version = "0.1.0"
edition = "2021"
publish = false

[dependencies]
unicode-segmentation = "1"
unicode-width = "*"
unicode-script = "*"
crossterm = "*"
serde = { version = "1", features = ["derive"] }
toml = "*"
pulldown-cmark = { version = "*", default-features = false }
