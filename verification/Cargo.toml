[package]
name = "plainshare"
version = "0.1.0"
edition = "2021"
publish = false

[dependencies]
markdown = "*"
clap = { version = "4", features = ["derive"] }
colored = "*"
fs_extra = "*"
rocket = "0.5"
serde = { version = "1", features = ["derive"] }
toml = "*"
