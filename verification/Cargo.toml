[package]
name = "ibc_handshake_codec"
version = "0.1.0"
edition = "2021"
publish = false

[dependencies]
ibc-proto = { version = "=0.52.0", default-features = false, features = ["std"] }
prost = "=0.13.5"

[dev-dependencies]
borsh = "=1.8.1"
