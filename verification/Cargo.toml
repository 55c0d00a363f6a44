[package]
name = "commit_stats"
version = "0.1.0"
edition = "2021"
publish = false

[dependencies]
time = { version = "0.3", features = ["formatting"] }
clap = { version = "4", features = ["derive"] }
charming = "*"

[dev-dependencies]
regex = "1"
