[package]
name = "pbac_core"
version = "0.1.0"
edition = "2021"
publish = false

[dependencies]
rand = "0.8"
bcrypt = "*"
chrono = "*"
tokio = { version = "*", default-features = false, features = ["sync"] }
