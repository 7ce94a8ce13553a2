[package]
name = "rsw"
version = "0.1.0"
edition = "2021"
publish = false

[dependencies]
regex = "1"
comrak = { version = "*", default-features = false }
serde = { version = "1", features = ["derive"] }
serde_derive = "1"
serde_yaml = "*"
toml = "*"
clap = "4"
chrono = "*"
