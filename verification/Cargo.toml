[package]
name = "offcut"
version = "0.1.0"
edition = "2021"
publish = false

[dependencies]
clap = { version = "4", features = ["derive"] }
dirs = "6"
glob = "0.3"
ignore = "0.4"
owo-colors = "4"
serde = { version = "1", features = ["derive"] }
serde_json = "1"
terminal_size = "0.4"
toml = "0.8"
unicode-width = "0.2"
walkdir = "2"
