[package]
name = "discrypt"
version = "0.1.0"
edition = "2021"
publish = false

[dependencies]
sha2 = "=0.10.9"
serde = { version = "=1.0.229", features = ["derive"] }
serde_json = "=1.0.154"
aes-gcm = "=0.10.3"
rand = "=0.8.8"
base64 = "=0.22.1"
async-trait = "=0.1.92"
tokio = { version = "=1.54.1", default-features = false, features = ["sync", "time"] }
argon2 = "0.5"

[dev-dependencies]
hex = "=0.4.3"
