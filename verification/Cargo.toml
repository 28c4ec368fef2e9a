[package]
name = "maws-menu"
version = "0.1.0"
edition = "2021"
publish = false

[dependencies]
anyhow = "1"
clap = "2"
home = "0.5"
serde = { version = "1", features = ["derive"] }
serde_json = "1"
termion = "1.5"
termios = "0.3"
toml = "0.5"
