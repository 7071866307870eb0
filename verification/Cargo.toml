[package]
name = "shellshelf"
version = "0.1.0"
edition = "2021"
publish = false

[dependencies]
regex = "1"
shell-words = "1"
serde = { version = "1", features = ["derive"] }
serde_json = "1"
clap = "4"
dirs = "*"
tokio = { version = "1", features = ["rt-multi-thread", "net", "process", "macros"] }
axum = "0.8"
tempfile = "3"
