[package]
name = "script_host"
version = "0.1.0"
edition = "2021"
publish = false

[dependencies]
rhai = { version = "=1.27.0", features = ["sync", "metadata"] }
rhai-rand = { version = "=0.2.0", features = ["metadata"] }
rhai-fs = { version = "=0.1.5", features = ["sync"] }
rhai-url = "=0.0.6"
rhai-ml = "=0.1.4"
serde_json = "=1.0.154"
