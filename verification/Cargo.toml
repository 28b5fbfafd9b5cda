[package]
name = "zkvm"
version = "0.1.0"
edition = "2021"
publish = false

[dependencies]
goblin = "*"
serde = { version = "1", features = ["derive"] }
serde_json = "1"
tokio = { version = "1", features = ["full"] }
axum = "*"
reqwest = { version = "*", default-features = false, features = ["json", "rustls-tls"] }
redis = { version = "*", features = ["tokio-comp"] }
bb8 = "*"
bb8-redis = "*"
rdkafka = "*"
uuid = { version = "1", features = ["v4"] }
tracing = "*"
aws-config = { version = "*", default-features = false, features = ["rt-tokio", "behavior-version-latest"] }
aws-sdk-s3 = { version = "*", default-features = false, features = ["rt-tokio", "behavior-version-latest"] }
