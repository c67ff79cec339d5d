[package]
name = "essentia_payment_plugin"
version = "0.1.0"
edition = "2021"
publish = false

[dependencies]
getrandom = "0.2"
sha2 = "0.10"
