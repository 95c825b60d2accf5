[package]
name = "version_bump"
version = "0.1.0"
edition = "2021"
publish = false

[dependencies]
anyhow = "*"
cargo-manifest = "*"
clap = { version = "*", features = ["derive"] }
colored = "*"
