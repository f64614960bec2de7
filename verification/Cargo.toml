[package]
name = "solx"
version = "0.1.0"
edition = "2021"
publish = false

[dependencies]
csv = "1"
ignore = "0.4"
libc = "0.2"
serde_json = "1"
tempfile = "3"

[dev-dependencies]
filetime = "0.2"
