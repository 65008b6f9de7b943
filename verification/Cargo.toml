[package]
name = "api_generator"
version = "0.1.0"
edition = "2021"
publish = false

[dependencies]
Inflector = { version = "0.11", default-features = false }
quote = "0.3"
syn = { version = "0.11", default-features = false, features = ["printing"] }
anyhow = "1"

[dev-dependencies]
regex = "1"
