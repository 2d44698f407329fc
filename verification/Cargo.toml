[package]
name = "dotenv_plus"
version = "0.1.0"
edition = "2021"
publish = false

[dependencies]
dotenvy = "0.15"

[dev-dependencies]
tempfile = "3"
