[package]
name = "tiered_compactor"
version = "0.1.0"
edition = "2021"
publish = false

[dependencies]
http = "*"
clap = { version = "*", features = ["derive", "env"] }
serde = { version = "*", features = ["derive"] }
serde_urlencoded = "*"
