[package]
name = "sol_lang"
version = "0.1.0"
edition = "2021"
publish = false

[dependencies]
ariadne = "*"
clap = { version = "4", features = ["derive"] }
polib = "*"
pretty = "*"
serde = { version = "1", features = ["derive"] }
serde_json = "1"
