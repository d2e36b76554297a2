[package]
name = "wiredtiger_glue"
version = "0.1.0"
edition = "2021"
publish = false

[dependencies]
lazy_static = "1"
libc = "0.2"
napi = { version = "2", default-features = false, features = ["napi6"] }
napi-derive = "2"
