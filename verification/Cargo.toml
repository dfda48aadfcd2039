[package]
name = "saltpass"
version = "0.1.0"
edition = "2021"
publish = false

[dependencies]
aes-gcm = "=0.10.3"
argon2 = "=0.5.3"
base64 = "=0.22.1"
chrono = "=0.4.45"
hmac = "=0.12.1"
pbkdf2 = "=0.12.2"
scrypt = "=0.11.0"
sha2 = "=0.10.9"
dirs = "=7.0.0"
dialoguer = "=0.12.0"
arboard = "=3.6.1"
libc = "=0.2.190"

[dev-dependencies]
serde_json = "=1.0.151"
toml = "=0.8.23"
