[package]
name = "peernet"
version = "0.1.0"
edition = "2021"
publish = false

[dependencies]
tokio = { version = "1", default-features = false, features = ["net", "rt", "sync", "time"] }
chrono = { version = "0.4", default-features = false, features = ["clock", "std"] }
log = "0.4"

[dev-dependencies]
serde_json = "1"
