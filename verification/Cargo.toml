[package]
name = "store"
version = "0.1.0"
edition = "2021"
publish = false

[dependencies]
ahash = "0.8"
bb8 = "0.8"
mysql_async = { version = "0.33", default-features = false, features = ["minimal"] }
