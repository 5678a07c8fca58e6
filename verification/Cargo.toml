[package]
name = "grading_core"
version = "0.1.0"
edition = "2021"
publish = false

[dependencies]
rusqlite = "=0.37.0"
encoding_rs = "0.8"
serde = { version = "1", features = ["derive"] }
