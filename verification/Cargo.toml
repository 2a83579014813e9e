[package]
name = "appstore_client"
version = "0.1.0"
edition = "2021"
publish = false

[dependencies]
hyper = { version = "0.14", features = ["client", "http1", "tcp"] }
hyper-rustls = { version = "0.24", features = ["webpki-roots"] }
