[package]
name = "pds_client"
version = "0.1.0"
edition = "2021"
publish = false

[dependencies]
atrium-api = "*"
serde_urlencoded = "*"
http = "1"
serde = { version = "1", features = ["derive"] }
serde_json = "1"
reqwest = { version = "*", default-features = false, features = ["json"] }
anyhow = "1"
thiserror = "*"
ciborium = "*"
jwt-compact = { version = "*", default-features = false }
tokio = { version = "1", features = ["rt", "macros"] }
