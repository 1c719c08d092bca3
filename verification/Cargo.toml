[package]
name = "halmak"
version = "0.1.0"
edition = "2021"
publish = false

[dependencies]
rand = "0.8"
rayon = "1"
serde = { version = "1", features = ["derive"] }
toml = "0.5"
termion = "1.5"
tui = "0.16"
