[package]
name = "feroxbuster"
version = "1.12.2"
edition = "2021"
publish = false

[dependencies]
anyhow = "1.0"
clap = "2.33"
reqwest = "0.11"
serde = { version = "1.0", features = ["derive"] }
toml = "0.5"
