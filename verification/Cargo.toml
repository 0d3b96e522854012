[package]
name = "tx2pack"
version = "0.1.0"
edition = "2021"
publish = false

[dependencies]
zstd = "*"
lz4 = "*"
aes-gcm = "*"
sha2 = "*"
chrono = "*"
serde = { version = "*", features = ["derive"] }
serde_json = "*"
thiserror = "*"
