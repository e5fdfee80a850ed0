[package]
name = "substreams-database-change"
version = "0.1.0"
edition = "2021"
publish = false

[dependencies]
prost-types = "0.13"
substreams = "0.6"
