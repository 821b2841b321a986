[package]
name = "pact"
version = "0.1.0"
edition = "2021"
publish = false

[dependencies]
bit_reverse = { version = "0.1", default-features = false }
hashbrown = "*"
