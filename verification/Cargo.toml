[package]
name = "ctap-fido2"
version = "0.1.0"
edition = "2021"
publish = false

[dependencies]
aes = "0.9"
base64 = "0.22"
ciborium = "0.2"
ed25519-dalek = "2"
hidapi = { version = "2", default-features = false, features = ["linux-native-basic-udev"] }
hmac-sha256 = "1"
log = "0.4"
p256 = { version = "0.13", features = ["ecdh", "ecdsa"] }
rand = "0.10"
zeroize = "1"
