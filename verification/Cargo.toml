[package]
name = "line_ingest"
version = "0.1.0"
edition = "2021"
publish = false

[dependencies]
regex = "*"
crossbeam-channel = "*"
