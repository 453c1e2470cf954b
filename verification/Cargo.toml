[package]
name = "cwfleet"
version = "0.1.0"
edition = "2021"
publish = false

[dependencies]
aws-config = "*"
aws-sdk-cloudwatch = "*"
aws-sdk-sts = "*"
aws-types = "*"
clap = "*"
serde = { version = "*", features = ["derive"] }
serde_json = "*"
tokio = { version = "*", features = ["macros", "rt-multi-thread", "fs"] }
toml = "*"
tracing-subscriber = "*"
