[package]
name = "ts3"
version = "0.1.0"
edition = "2021"
publish = false

[dependencies]
async-trait = "0.1"
tokio = { version = "1", default-features = false, features = ["rt"] }
ts3_derive = "*"
