[package]
name = "eth_connector"
version = "0.1.0"
edition = "2021"
publish = false

[dependencies]
hex = "=0.4.3"
borsh = { version = "=1.8.1", features = ["derive"] }
