[package]
name = "rustscan"
version = "0.1.0"
edition = "2021"
publish = false

[dependencies]
anyhow = "1"
cidr-utils = "0.6"
dirs = "5"
hickory-resolver = { version = "0.24", features = ["dns-over-rustls"] }
log = "0.4"
text_placeholder = { version = "0.5", features = ["struct_context"] }
toml = "0.8"
