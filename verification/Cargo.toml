[package]
name = "bigchess"
version = "0.1.0"
edition = "2021"
publish = false

[dependencies]
shakmaty = "0.16"
serde = { version = "1", features = ["derive"] }
serde_json = "1"
tokio = { version = "1", features = ["rt", "io-std", "io-util", "macros"] }
clap = "4"
