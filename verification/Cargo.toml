[package]
name = "felix_state"
version = "0.1.0"
edition = "2021"
publish = false

[dependencies]
chrono = "0.4"
crossterm = "0.25"
log = "0.4"
natord = "1"
serde = { version = "1", features = ["derive"] }
toml = "0.5"
walkdir = "2"
