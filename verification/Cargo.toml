[package]
name = "mukti"
version = "0.1.0"
edition = "2021"
publish = false

[dependencies]
atomicwrites = "0.4"
blake2 = "0.10"
bytes = "1"
camino = "1"
clap = { version = "4", features = ["derive"] }
color-eyre = "0.6"
futures-util = "0.3"
hex = "0.4"
reqwest = { version = "0.12", default-features = false, features = ["rustls-tls"] }
semver = { version = "1", features = ["serde"] }
serde = { version = "1", features = ["derive"] }
serde_json = "1"
sha2 = "0.10"
tokio = { version = "1", features = ["rt-multi-thread", "macros"] }
