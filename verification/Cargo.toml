[package]
name = "take_ur_meds"
version = "0.1.0"
edition = "2021"
publish = false

[dependencies]
anyhow = "1"
arrow-array = "*"
arrow-schema = "*"
chrono = "0.4"
clap = { version = "4", features = ["derive"] }
futures = "0.3"
indicatif = "*"
reqwest = { version = "*", features = ["blocking"] }
roxmltree = "*"
serde = { version = "1", features = ["derive"] }
serde_json = "1"
tokio = { version = "1", features = ["rt-multi-thread", "macros"] }
