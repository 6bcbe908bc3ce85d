[package]
name = "parkourtag"
version = "0.1.0"
edition = "2021"
publish = false

[dependencies]
valence = "*"
valence_anvil = "*"
tracing-subscriber = "*"
redis = "*"
