[package]
name = "tide"
version = "0.1.0"
edition = "2021"
publish = false

[dependencies]
futures = { version = "0.3", features = ["compat"] }
http = "0.1"
hyper = "0.12"
multipart = { version = "0.18", default-features = false, features = ["server"] }
path-table = "*"
pin-utils = "0.1"
serde = "1"
serde_json = "1"
serde_qs = "*"
