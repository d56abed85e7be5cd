[package]
name = "p2p_node"
version = "0.1.0"
edition = "2021"
publish = false

[dependencies]
rand = "0.9"
jiff = { version = "0.2", features = ["serde"] }
uuid = { version = "1", features = ["v4"] }
serde = { version = "1", features = ["derive"] }
serde_json = "1"
owo-colors = "4"
tokio = { version = "1", features = ["macros", "rt-multi-thread"] }
aws-config = { version = "1", features = ["behavior-version-latest"] }
aws-sdk-sqs = "1"
sha2 = "0.10"
base16ct = { version = "0.2", features = ["alloc"] }
