[package]
name = "flycheap"
version = "0.1.0"
edition = "2021"
publish = false

[dependencies]
rusqlite = { version = "*", features = ["bundled"] }
time = { version = "*", features = ["local-offset"] }
hyper = "=0.10.16"
rustc-serialize = "*"
toml = "*"
