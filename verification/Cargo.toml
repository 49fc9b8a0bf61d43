[package]
name = "space_trader"
version = "0.1.0"
edition = "2021"
publish = false

[dependencies]
rand = "0.9"
uuid = { version = "1", features = ["v4"] }
rusqlite = { version = "0.32", features = ["bundled"] }
base64 = "0.22"
ctrlc = "3"
crossbeam-channel = "0.5"
