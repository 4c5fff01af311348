[package]
name = "anduin"
version = "0.1.0"
edition = "2021"
publish = false

[dependencies]
unidiff = "*"
directories = "*"
serde = { version = "1", features = ["derive"] }
toml = "*"
