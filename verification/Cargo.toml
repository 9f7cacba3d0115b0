[package]
name = "alpm_cleaner"
version = "0.1.0"
edition = "2021"
publish = false

[dependencies]
anyhow = "1"
chrono = { version = "0.4", default-features = false, features = ["alloc"] }
crossterm = "0.28"
ratatui = "0.29"
