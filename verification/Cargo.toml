[package]
name = "yml2csv"
version = "0.1.0"
edition = "2021"
publish = false

[dependencies]
xml = "=1.4.0"
csv = "=1.4.0"
reqwest = { version = "=0.13.5", default-features = false, features = ["blocking"] }
