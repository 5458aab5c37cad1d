[package]
name = "fork"
version = "0.1.0"
edition = "2021"
publish = false

[dependencies]
anyhow = "=1.0.104"
clap = { version = "=4.6.7", features = ["derive"] }
colored = "=3.1.1"
dialoguer = "=0.12.0"
glob = "=0.3.4"
serde_json = "=1.0.154"
toml = "=0.8.23"
which = "=8.0.6"
