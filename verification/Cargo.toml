[package]
name = "tox"
version = "0.1.0"
edition = "2021"
publish = false

[dependencies]
bytes = "=0.4.12"
cookie-factory = "0.2"
futures = "=0.1.31"
nom = "=3.2.1"
tokio-codec = "=0.1.2"
