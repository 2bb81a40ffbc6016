[package]
name = "zshrcman"
version = "0.1.0"
edition = "2021"
publish = false

[dependencies]
anyhow = "1"
chrono = { version = "0.4", features = ["serde"] }
clap = { version = "4", features = ["derive"] }
colored = "2"
dialoguer = "0.11"
directories = "5"
dirs = "5"
git2 = { version = "0.18", default-features = false }
serde = { version = "1", features = ["derive"] }
strsim = "0.11"
toml = "0.8"
tracing-subscriber = { version = "0.3", features = ["env-filter"] }
