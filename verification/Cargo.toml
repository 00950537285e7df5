[package]
name = "filecrypt"
version = "0.1.0"
edition = "2021"
publish = false

[dependencies]
aead = "0.5"
aes-gcm = "0.10"
base64 = "0.22"
