[package]
name = "ferveo"
version = "0.1.0"
edition = "2021"
publish = false

[dependencies]
ark-bls12-381 = "0.5"
ark-ec = "0.5"
ark-ff = "0.5"
ark-poly = "0.5"
ark-serialize = { version = "0.5", features = ["derive"] }
ark-std = "0.5"
bincode = "1.3"
rand_core = "0.6"
serde = { version = "1.0", features = ["derive"] }
serde_with = "3"
thiserror = "1.0"
zeroize = { version = "1", features = ["derive"] }
