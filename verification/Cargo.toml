[package]
name = "yutha"
version = "0.1.0"
edition = "2021"
publish = false

[dependencies]
time = { version = "0.3", features = ["parsing", "formatting"] }
cedar-policy = "3"
serde = { version = "1", features = ["derive"] }
serde_yaml = "0.9"
serde_json = "1"
tokio = { version = "1", features = ["sync", "rt", "macros"] }
async-trait = "0.1"
thiserror = "1"
hex = "0.4"
