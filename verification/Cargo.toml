[package]
name = "kapitalist"
version = "0.1.0"
edition = "2021"
publish = false

[dependencies]
jsonwebtoken = { version = "=11.1.0", default-features = false, features = ["rust_crypto"] }

[dev-dependencies]
serde_json = "=1.0.151"
