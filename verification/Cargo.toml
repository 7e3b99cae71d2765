[package]
name = "pixestl"
version = "0.1.0"
edition = "2021"
publish = false

[dependencies]
rayon = "*"
clap = { version = "*", features = ["derive"] }
serde = { version = "*", features = ["derive"] }
serde_json = "*"
thiserror = "*"
zip = "*"
image = { version = "*", default-features = false, features = ["png", "jpeg"] }
