[package]
name = "proptest_http_message"
version = "0.1.0"
edition = "2021"
publish = false

[dependencies]
proptest = { version = "=1.9.0", default-features = false, features = ["std"] }
rand = { version = "=0.9.5", default-features = false }

[dev-dependencies]
url = "=2.5.8"
