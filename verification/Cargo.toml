[package]
name = "master-duel-bgms"
version = "0.1.0"
edition = "2021"
publish = false

[dependencies]
ab_glyph = "0.2"
anyhow = "1"
clap = { version = "4", features = ["derive"] }
fontdb = "0.23"
rustfft = "6"
serde = { version = "1", features = ["derive"] }
serde_json = "1"
tiny-skia = "0.11"
