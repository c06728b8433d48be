[package]
name = "esign"
version = "0.1.0"
edition = "2021"
publish = false

[dependencies]
base64 = "0.13"
bcder = "*"
chrono = "*"
cryptographic-message-syntax = "*"
deflate = "*"
foreign-types-shared = "*"
hmac = "0.11"
lettre = "0.10"
libc = "*"
lopdf = "*"
openssl = "*"
openssl-sys = "*"
png = "0.17"
rand = "0.8"
serde = { version = "*", features = ["derive"] }
serde_json = "*"
sha2 = "0.9"
uuid = { version = "*", features = ["v4"] }
x509-certificate = "*"

[dev-dependencies]
inflate = "*"
