[package]
name = "filegate"
version = "0.1.0"
edition = "2021"
publish = false

[dependencies]
async-compression = { version = "*", features = ["tokio", "gzip", "brotli"] }
base64 = "*"
chrono = "*"
clamav-client = { version = "*", default-features = false }
hex = "*"
image = { version = "*", default-features = false, features = ["jpeg", "png", "gif"] }
mime_guess = "*"
prometheus = "*"
serde = { version = "*", features = ["derive"] }
serde_json = "*"
serde_yaml = "*"
sha2 = "*"
thiserror = "*"
tokio = { version = "*", default-features = false, features = ["io-util"] }
uuid = { version = "*", features = ["v4"] }
