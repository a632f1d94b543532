[package]
name = "httpbridge"
version = "0.1.0"
edition = "2021"
publish = false

[dependencies]
tokio = { version = "*", features = ["sync", "rt-multi-thread", "net", "io-util", "time"] }
hyper = { version = "*", features = ["http1", "server"] }
hyper-util = { version = "*", features = ["tokio"] }
http-body-util = "*"
bytes = "*"
serde_json = "*"
