[package]
name = "reed"
version = "0.1.0"
edition = "2021"
publish = false

[dependencies]
anyhow = "=1.0.104"
base64 = "=0.22.1"
clap = { version = "=4.6.7", features = ["derive"] }
crossterm = "=0.29.0"
directories = "=6.0.0"
image = { version = "=0.25.10", default-features = false, features = ["png", "jpeg", "gif", "webp"] }
libghostty-vt = "=0.2.2"
magika = "=1.1.0"
regex = "=1.13.1"
serde = { version = "=1.0.229", features = ["derive"] }
syntect = "=5.3.0"
termimad = "=0.34.1"
toml = "=1.1.8"
tracing = "=0.1.44"
tracing-subscriber = { version = "=0.3.23", features = ["env-filter"] }
unicode-width = "=0.2.3"
