[package]
name = "askman"
version = "0.1.0"
edition = "2021"
publish = false

[dependencies]
anyhow = "*"
clap = { version = "*", features = ["derive"] }
colored = "*"
fastembed = "*"
rusqlite = { version = "*", features = ["bundled"] }
sqlite-vec = "*"
zerocopy = "*"
