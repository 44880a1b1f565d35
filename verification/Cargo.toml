[package]
name = "component_meta"
version = "0.1.0"
edition = "2021"
publish = false

[dependencies]
regex-syntax = "*"
serde = { version = "=1.0.229", features = ["derive"] }
serde_json = "=1.0.151"
swc_common = "=26.0.0"
swc_ecma_ast = "=29.0.2"
swc_ecma_parser = "=45.1.6"
