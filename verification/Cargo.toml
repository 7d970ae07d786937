[package]
name = "whatsapp-rs"
version = "0.1.0"
edition = "2021"
publish = false

[dependencies]
aes = "0.8"
aes-gcm = "0.10"
base64 = "0.22"
cbc = { version = "0.1", features = ["alloc"] }
ctr = "0.9"
curve25519-dalek = "4"
flate2 = "1"
getrandom = "0.2"
hkdf = "0.12"
hmac = "0.12"
md-5 = "0.10"
pbkdf2 = "0.12"
qr2term = "0.3"
serde = { version = "1", features = ["derive"] }
serde_json = "1"
sha2 = "0.10"
snow = "0.9"
thiserror = "1"
tungstenite = { version = "0.21", features = ["native-tls"] }
x25519-dalek = "2"
