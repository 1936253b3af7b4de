[package]
name = "aria_shell"
version = "0.1.0"
edition = "2021"
publish = false

[dependencies]
configparser = { version = "3", features = ["indexmap"] }
serde_json = "1"
