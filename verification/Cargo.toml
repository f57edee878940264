[package]
name = "quicken_prices"
version = "0.1.0"
edition = "2021"
publish = false

[dependencies]
reqwest = { version = "*", default-features = false, features = ["blocking"] }
log = "*"
pretty_env_logger = "*"
