[package]
name = "sysmotd"
version = "0.1.0"
edition = "2021"
publish = false

[dependencies]
regex = "*"
serde_json = "*"
clap = "*"
dirs = "*"
toml = "*"
libc = "*"

[dependencies.serde]
version = "*"
features = ["derive"]
