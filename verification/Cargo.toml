[package]
name = "varlociraptor"
version = "0.1.0"
edition = "2021"
publish = false

[dependencies]
anyhow = "1"
bincode = "1.3"
bio = "*"
bio-types = { version = "*", features = ["serde"] }
bv = { version = "0.11", features = ["serde"] }
byteorder = "1"
half = "*"
itertools = "*"
rust-htslib = { version = "*", default-features = false }
serde = { version = "1", features = ["derive"] }
serde_json = "1"
