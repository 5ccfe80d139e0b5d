[package]
name = "medpack"
version = "0.1.0"
edition = "2021"
publish = false

[dependencies]
serde_yaml = "*"
csv = "*"
scraper = "*"
clap = { version = "*", features = ["derive"] }
serde = { version = "*", features = ["derive"] }
serde_json = "*"
chrono = { version = "*", features = ["serde"] }
eyre = "*"
tempdir = "*"
rayon = "*"
indicatif = "*"
console = "*"
