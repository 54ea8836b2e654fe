[package]
name = "gloam"
version = "0.1.0"
edition = "2021"
publish = false

[dependencies]
anyhow = "1"
clap = { version = "4", features = ["derive"] }
flate2 = "1"
indexmap = "2"
minijinja = "*"
roxmltree = "*"
serde = { version = "1", features = ["derive"] }
