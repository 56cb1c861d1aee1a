[package]
name = "hyperfine"
version = "0.1.0"
edition = "2021"
publish = false

[dependencies]
anyhow = "*"
atty = "*"
clap = "*"
colored = "*"
indicatif = "*"
rust_decimal = "*"
serde = { version = "*", features = ["derive"] }
serde_json = "*"
