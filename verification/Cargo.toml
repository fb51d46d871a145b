[package]
name = "timetrack"
version = "0.1.0"
edition = "2021"
publish = false

[dependencies]
chrono = "*"
clap = { version = "4", features = ["cargo"] }
serde = { version = "*", features = ["derive"] }
serde_json = "*"
