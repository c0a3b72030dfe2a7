[package]
name = "proclist"
version = "0.1.0"
edition = "2021"
publish = false

[dependencies]
jni = "*"

[dev-dependencies]
serde_json = "*"
