[package]
name = "authvault"
version = "0.1.0"
edition = "2021"
publish = false

[dependencies]
aes = "=0.9.3"
aes-gcm = "=0.11.1"
aes-kw = "=0.3.1"
hkdf = "=0.13.0"
sha2 = "=0.11.0"
p256 = { version = "=0.14.0", features = ["ecdh", "getrandom"] }
getrandom = "=0.4.3"
serde = { version = "=1.0.229", features = ["derive"] }
serde_json = "=1.0.151"

[dev-dependencies]
base64 = "=0.23.1"
