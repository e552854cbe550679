[package]
name = "iax2"
version = "0.1.0"
edition = "2021"
publish = false

[dependencies]
md5 = "0.7"
tokio = { version = "1", features = ["net", "rt", "macros", "time", "sync", "io-util", "io-std"] }
rubato = "0.15"
cpal = "0.15"
