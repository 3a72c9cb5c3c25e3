[package]
name = "summer_player"
version = "0.3.0"
edition = "2021"
publish = false

[dependencies]
rand = "0.8"
serde = { version = "1", features = ["derive"] }
toml = "0.8"
dirs = "5"
symphonia = "0.5"
lofty = "*"
sys-locale = "0.3"
clap = { version = "4", features = ["derive"] }
