[package]
name = "marten"
version = "0.1.0"
edition = "2021"
publish = false

[dependencies]
similar = { version = "=2.7.0", features = ["unicode"] }
unicode-width = "=0.2.3"
shell-words = "=1.1.1"
git2 = "=0.21.0"
crossterm = "=0.29.0"
ratatui = "=0.30.2"
clap = { version = "=4.6.7", features = ["derive"] }
serde = { version = "=1.0.229", features = ["derive"] }
toml = "=1.1.8"
toml_edit = "=0.25.18"
syntect = { version = "=5.3.0", default-features = false, features = ["default-fancy"] }
