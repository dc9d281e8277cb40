[package]
name = "multisig"
version = "0.1.0"
edition = "2021"
publish = false

[dependencies]
dusk-core = "=1.7.0"
dusk-bytes = "=0.1.7"
derive-hex = "=0.1.2"

[dev-dependencies]
rand = "=0.8.5"
