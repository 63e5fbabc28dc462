[package]
name = "sn_dbc"
version = "0.1.0"
edition = "2021"
publish = false

[dependencies]
blsttc = "8"
bulletproofs = "4.0.0"
curve25519-dalek-ng = "4"
merlin = "3"
tiny-keccak = { version = "2", features = ["sha3"] }
serde = { version = "1", features = ["derive"] }

[dev-dependencies]
rand = "0.8"
