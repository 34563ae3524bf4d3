[package]
name = "anbar"
version = "0.1.0"
edition = "2021"
publish = false

[dependencies]
chrono = { version = "0.4", features = ["serde"] }
futures = "0.3"
hmac = "0.10"
hyper = { version = "0.14", features = ["full"] }
md-5 = "0.9"
serde = { version = "1", features = ["derive"] }
serde_json = "1"
sha2 = "0.9"
sled = "0.34"
tokio = { version = "1", features = ["full"] }

[dev-dependencies]
regex = "1"
