[package]
name = "dumpfs"
version = "0.1.0"
edition = "2021"
publish = false

[dependencies]
glob-match = "*"
clap = { version = "*", features = ["derive"] }
walkdir = "*"
ignore = "*"
serde = { version = "*", features = ["derive"] }
serde_json = "*"
dirs = "*"
chrono = "*"
hostname = "*"
tiktoken-rs = "*"
rayon = "*"

[dev-dependencies]
quick-xml = "*"
