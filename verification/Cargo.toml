[package]
name = "bifrost_admin"
version = "0.1.0"
edition = "2021"
publish = false

[dependencies]
sha1 = "=0.10.7"
base64 = "=0.22.1"
flate2 = "=1.1.10"
regex = "=1.13.1"
urlencoding = "=2.1.3"
serde = { version = "=1.0.229", features = ["derive"] }
serde_json = "=1.0.154"
bcrypt = "=0.15.1"
jsonwebtoken = "=9.3.1"
uuid = { version = "=1.29.0", features = ["v4"] }
rand = "=0.8.8"
brotli = "7"
zstd = "0.13"
