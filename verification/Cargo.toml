[package]
name = "sweethosts"
version = "0.1.0"
edition = "2021"
publish = false

[dependencies]
serde_json = "1"
open = "5"
reqwest = { version = "0.12", default-features = false, features = ["blocking"] }
