[package]
name = "cascading_extract"
version = "0.1.0"
edition = "2021"
publish = false

[dependencies]
infer = "=0.22.0"
log = "=0.4.34"
serde = { version = "=1.0.229", features = ["derive"] }
sevenz-rust = { version = "=0.6.1", features = ["aes256"] }
tokio = { version = "=1.53.2", features = ["rt-multi-thread", "sync", "macros"] }
toml = "=1.1.7"
