[package]
name = "mechanical_junior"
version = "0.1.0"
edition = "2021"
publish = false

[dependencies]
convert_case = "0.6"
regex = "1"
shell-words = "1"
serde = { version = "1", features = ["derive"] }
shellexpand = "3"
toml-configurator = "*"
walkdir = "2"
