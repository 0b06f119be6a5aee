[package]
name = "hugr"
version = "0.1.0"
edition = "2021"
publish = false

[dependencies]
serde_json = "1"
anyhow = "1"
thiserror = "2"
async-trait = "0.1"
tokio = { version = "1", features = ["rt", "macros", "sync"] }
