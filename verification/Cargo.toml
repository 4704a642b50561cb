[package]
name = "nessemble"
version = "0.1.0"
edition = "2021"
publish = false

[dependencies]
image = { version = "=0.25.10", default-features = false, features = ["png"] }
rhai = { version = "=1.27.0", features = ["internals", "debugging"] }
rhai-fs = "=0.1.5"
rhai-rand = "=0.2.0"
serde_json = "=1.0.154"
changesets = "=0.4.0"
