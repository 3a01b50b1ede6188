[package]
name = "smog"
version = "0.1.0"
edition = "2021"
publish = false

[dependencies]
tokio = { version = "1", features = ["net", "io-util", "rt-multi-thread", "time", "sync", "fs"] }
postcard = { version = "1", features = ["use-std"] }
serde = { version = "1", features = ["derive"] }
crossbeam-channel = "0.5"
rayon = "1"
rand = "0.8"
log = "0.4"
glam = "*"
