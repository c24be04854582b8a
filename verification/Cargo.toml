[package]
name = "http_deprecation"
version = "0.1.0"
edition = "2021"
publish = false

[dependencies]
reqwest = { version = "0.12", default-features = false }
time = { version = "0.3", features = ["parsing"] }

[dev-dependencies]
http = "1"
