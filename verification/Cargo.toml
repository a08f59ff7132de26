[package]
name = "todoozy"
version = "0.1.0"
edition = "2021"
publish = false

[dependencies]
chrono = "0.4"
lexopt = "0.3"
serde = { version = "1", features = ["derive"] }
serde_json = "1"
ignore = "0.4"
git2 = "*"
