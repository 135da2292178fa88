[package]
name = "egg_node"
version = "0.1.0"
edition = "2021"
publish = false

[dependencies]
sha2 = "0.10"
secp256k1 = "0.29"
rand = "0.8"
aes-gcm = "0.10"
argon2 = "0.5"
bincode = "1"
serde = { version = "1", features = ["derive"] }
clap = { version = "4", features = ["derive"] }
sled = "0.34"
hex = "0.4"
