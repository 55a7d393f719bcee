[package]
name = "spellbook"
version = "0.1.0"
edition = "2021"
publish = false

[dependencies]
rust-ini = "*"
nix = { version = "*", features = ["process", "inotify"] }
ratatui = "*"
crossterm = "*"
serde = { version = "*", features = ["derive"] }
toml = "*"
