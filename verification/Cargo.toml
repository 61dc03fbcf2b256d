[package]
name = "can_transport"
version = "0.1.0"
edition = "2021"
publish = false

[dependencies]
heapless = "*"
fallible_collections = "*"
