[package]
name = "yen"
version = "0.1.0"
edition = "2021"
publish = false

[dependencies]
serde_json = "*"
sha256 = "*"
clap = { version = "*", features = ["derive"] }
reqwest = { version = "*", default-features = false, features = ["blocking"] }
flate2 = "*"
tar = "*"
