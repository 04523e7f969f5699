[package]
name = "rulecore"
version = "0.1.0"
edition = "2021"
publish = false

[dependencies]
serde_yaml = "0.8"
