[package]
name = "haske_core"
version = "0.1.0"
edition = "2021"
publish = false

[dependencies]
base64 = "=0.23.1"
brotli = "=9.0.0"
constant_time_eq = "=0.6.1"
flate2 = "=1.1.10"
hmac = "0.12"
matchit = "=0.9.2"
pbkdf2 = "0.12"
rand = "=0.8.8"
regex = "=1.13.1"
serde_json = "=1.0.151"
sha1 = "=0.10.7"
sha2 = "=0.10.9"
tera = "=1.20.1"
tokio = { version = "=1.53.2", features = ["rt", "time"] }
zstd = "=0.14.0"
