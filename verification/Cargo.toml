[package]
name = "sayaka_engine"
version = "0.1.0"
edition = "2021"
publish = false

[dependencies]
libc = "0.2"
quick-xml = "0.38"
rustix = { version = "1", features = ["fs", "process"] }
semver = "1"
serde = { version = "1", features = ["derive"] }
serde_json = "1"
sha2 = "0.10"
