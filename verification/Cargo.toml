[package]
name = "betterrgb"
version = "0.1.0"
edition = "2021"
publish = false

[dependencies]
byteorder = "1.5.0"
serde = { version = "1", features = ["derive"] }
serde_json = "1"
log = "0.4"
rustfft = "6"
