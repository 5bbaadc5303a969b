[package]
name = "serde-redis"
version = "0.14.0"
edition = "2021"
publish = false

[dependencies]
redis = { version = "0.23", default-features = false }
serde = "1"
