[package]
name = "aws_profiles"
version = "0.1.0"
edition = "2021"
publish = false

[dependencies]
rust-ini = "*"
homedir = "0.2"
notify = "*"
futures = "*"
tokio = { version = "*", features = ["rt"] }
serde = { version = "*", features = ["derive"] }
serde_derive = "*"
