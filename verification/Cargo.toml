[package]
name = "emorand"
version = "0.1.0"
edition = "2021"
publish = false

[dependencies]
rand = "0.8"
directories = "*"
reqwest = { version = "0.12", default-features = false, features = ["blocking"] }
