[package]
name = "conslex"
version = "0.1.0"
edition = "2021"
publish = false

[dependencies]
lasso = { version = "*", features = ["multi-threaded"] }
