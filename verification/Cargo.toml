[package]
name = "libra_manager"
version = "0.1.0"
edition = "2021"
publish = false

[dependencies]
ab_glyph = "*"
barcoders = "*"
chrono = "*"
image = "*"
imageproc = "*"
reqwest = { version = "*", default-features = false, features = ["blocking", "json"] }
serde = { version = "*", features = ["derive"] }
serde_json = "*"
