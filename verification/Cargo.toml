[package]
name = "paradox_api"
version = "0.1.0"
edition = "2021"
publish = false

[dependencies]
assembly-core = "*"
assembly-fdb = "*"
assembly-xml = "*"
http = "0.2"
http-body = "0.4"
hyper = { version = "0.14", features = ["full"] }
latin1str = "*"
linked-hash-map = { version = "0.5", features = ["serde_impl"] }
percent-encoding = "2"
serde = { version = "1", features = ["derive"] }
serde_json = "1"
tower = "0.4"
tracing = "0.1"
warp = "0.3"
