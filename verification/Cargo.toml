[package]
name = "depgraph"
version = "0.1.0"
edition = "2021"
publish = false

[dependencies]
csv = "1"
serde = { version = "1", features = ["derive"] }
serde_json = "1"
url = "2"
dot = "0.1"
clap = "3"
log = "0.4"
env_logger = "0.10"
git2 = { version = "0.19", default-features = false }
dirs = "5"
reqwest = { version = "0.12", default-features = false }
tokio = { version = "1", features = ["rt-multi-thread"] }
walkdir = "2"
