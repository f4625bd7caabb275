[package]
name = "afn"
version = "0.1.0"
edition = "2021"
publish = false

[dependencies]
tiny-keccak = { version = "2", features = ["keccak"] }
secp256k1 = { version = "0.28", features = ["rand-std", "global-context", "recovery"] }
rand = "0.8"
rand_chacha = "0.3"
openssl = "0.10"
bit-set = "0.5"
serde = { version = "1", features = ["derive"] }
serde_json = "1"
toml = "0.8"
anyhow = "1"
thiserror = "1"
