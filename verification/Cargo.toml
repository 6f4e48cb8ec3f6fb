[package]
name = "snomed_terminology"
version = "0.1.0"
edition = "2021"
publish = false

[dependencies]
csv = "1"
rayon = "1"
serde = { version = "1", features = ["derive"] }
thiserror = "1"
tokio = { version = "1", default-features = false, features = ["rt-multi-thread", "macros"] }
tonic = { version = "0.12", default-features = false }
tracing = "0.1"
tracing-subscriber = { version = "0.3", features = ["env-filter"] }

[dev-dependencies]
serde_json = "1"
