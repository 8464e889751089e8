[package]
name = "vouch"
version = "0.1.0"
edition = "2021"
publish = false

[dependencies]
cel = "*"
chrono = "*"
clap = { version = "*", features = ["derive"] }
jsonschema = { version = "*", default-features = false }
serde = { version = "*", features = ["derive"] }
serde_json = "*"
sha2 = "*"
tokio = { version = "*", features = ["process", "time", "io-util", "rt-multi-thread", "macros"] }
toml = "*"
