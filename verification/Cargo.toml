[package]
name = "circuit_ci_gui"
version = "0.1.0"
edition = "2021"
publish = false

[dependencies]
serde_yaml_ng = "=0.10.0"
