[package]
name = "asset_hub"
version = "0.1.0"
edition = "2021"
publish = false

[dependencies]
capnp = "0.13"
capnp-rpc = "0.13"
futures = "0.3"
tokio = { version = "0.2", features = ["rt-core", "rt-util", "sync", "tcp"] }
