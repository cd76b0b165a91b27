[package]
name = "git_navigator"
version = "0.1.0"
edition = "2021"
publish = false

[dependencies]
unicode-width = "0.2"
anyhow = "=1.0.104"
clap = { version = "=4.6.7", features = ["derive"] }
ratatui = "0.29"
notify = "8"
arboard = { version = "3", default-features = false }
