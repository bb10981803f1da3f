[package]
name = "feature_targeting"
version = "0.1.0"
edition = "2021"
publish = false

[dependencies]
regex = "1"
base64 = "0.13"
serde_json = "1"
woothee = "0.13"
