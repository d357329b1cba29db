[package]
name = "secure_vault"
version = "0.1.0"
edition = "2021"
publish = false

[dependencies]
aes-gcm = "0.10"
argon2 = "0.5"
hmac = "0.12"
sha2 = "0.10"
rand = "0.8"
zeroize = "1"
rpassword = "7"

[dev-dependencies]
bincode = "1.3"
serde = "1"
