[package]
name = "mhrice"
version = "0.1.0"
edition = "2021"
publish = false

[dependencies]
anyhow = "1"
bytes = "1"
futures = "0.3"
md-5 = "0.10"
nalgebra-glm = "*"
rusoto_core = "0.48"
rusoto_s3 = "0.48"
serde = { version = "1", features = ["derive"] }
serde_json = "1"
tokio = { version = "1", features = ["rt-multi-thread"] }
