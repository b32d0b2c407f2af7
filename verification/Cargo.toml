[package]
name = "c2pa"
version = "0.1.0"
edition = "2021"
publish = false

[dependencies]
serde_json = "1"
serde_cbor = "0.11"
serde-transcode = "1"
