[package]
name = "envi"
version = "0.1.0"
edition = "2021"
publish = false

[dependencies]
anyhow = "1"
serde_json = "1"
serde_yaml = "*"
shell-escape = "*"
structopt = "0.3"
toml = "*"
