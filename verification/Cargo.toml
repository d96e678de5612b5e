[package]
name = "ipp"
version = "0.1.0"
edition = "2021"
publish = false

[dependencies]
hyper = { version = "=0.14.32", features = ["client", "http1", "tcp"] }
