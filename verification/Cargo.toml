[package]
name = "atopile"
version = "0.1.0"
edition = "2021"
publish = false

[dependencies]
serde = { version = "1", features = ["derive"] }
serde_json = "1"
thiserror = "1"
miette = "7"
clap = { version = "4", features = ["derive"] }
uuid = { version = "1", features = ["v4"] }
console = "0.15"
