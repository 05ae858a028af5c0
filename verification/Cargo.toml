[package]
name = "rustypod"
version = "0.1.0"
edition = "2021"
publish = false

[dependencies]
rusqlite = { version = "*", features = ["bundled"] }
feed-rs = "*"
reqwest = { version = "*", default-features = false, features = ["blocking"] }
toml = "*"
serde = { version = "*", features = ["derive"] }
clap = "*"
