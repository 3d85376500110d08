[package]
name = "mpz"
version = "0.1.0"
edition = "2021"
publish = false

[dependencies]
rangeset = "*"
blake3 = "1"
futures = "0.3"
rand = "0.8"
rand_chacha = "0.3"
serde = { version = "1", features = ["derive"] }
thiserror = "1"
itybity = "*"
