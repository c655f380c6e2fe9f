[package]
name = "vaultmesh_agent"
version = "0.1.0"
edition = "2021"
publish = false

[dependencies]
uuid = { version = "1", features = ["v4"] }
sha2 = "0.10"
base64 = "0.22"
url = "2"
serde = { version = "1", features = ["derive"] }
serde_json = "1"
aes-gcm = "0.10"
rand_core = { version = "0.6", features = ["getrandom"] }
atomic-write-file = "0.2"
zeroize = "1"
