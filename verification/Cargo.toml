[package]
name = "jpatchset"
version = "0.1.0"
edition = "2021"
publish = false

[dependencies]
blake2 = "0.10"
clap = { version = "3", features = ["derive"] }
json-patch = "0.2"
niffler = "2"
serde = { version = "1", features = ["derive"] }
serde_json = "1"
simple-error = "0.2"
