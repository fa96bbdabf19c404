[package]
name = "aws_sso_navigator"
version = "0.1.0"
edition = "2021"
publish = false

[dependencies]
rust-ini = "*"
clap = { version = "*", features = ["derive"] }
dirs = "*"
serde = { version = "*", features = ["derive"] }
serde_json = "*"
toml = "*"
skim = "*"
crossterm = "*"
ratatui = "*"
