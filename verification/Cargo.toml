[package]
name = "rskrb5"
version = "0.1.0"
edition = "2021"
publish = false

[dependencies]
aes = "=0.9.4"
des = "=0.9.0"
hmac = "=0.13.0"
md4 = "=0.11.0"
md-5 = "=0.11.0"
pbkdf2 = "=0.13.0"
rc4 = "=0.2.0"
sha1 = "=0.11.0"
sha2 = "=0.11.1"
chrono = { version = "0.4", default-features = false, features = ["alloc"] }
serde = { version = "=1.0.229", features = ["derive"] }
serde_json = "=1.0.154"

[dev-dependencies]
hex = "=0.4.3"
