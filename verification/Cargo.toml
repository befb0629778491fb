[package]
name = "gcdgold"
version = "0.1.0"
edition = "2021"
publish = false

[dependencies]
anyhow = "=1.0.104"
clap = { version = "=4.6.7", features = ["derive"] }
crc = "=3.4.0"
hex = "=0.4.3"
serde = { version = "=1.0.229", features = ["derive"] }
sha1 = "=0.11.0"
yaml_serde = "=0.10.7"
