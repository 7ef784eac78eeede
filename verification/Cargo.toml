[package]
name = "klask"
version = "0.1.0"
edition = "2021"
publish = false

[dependencies]
clap = "3.2"
uuid = { version = "1", features = ["v4"] }
Inflector = "0.11"
