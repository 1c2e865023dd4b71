[package]
name = "directory_flattener"
version = "0.1.0"
edition = "2021"
publish = false

[dependencies]
clap = { version = "3", features = ["derive"] }
serde_json = "1"
uuid = { version = "0.8", features = ["v4"] }
walkdir = "2"
