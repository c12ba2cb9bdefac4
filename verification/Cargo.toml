[package]
name = "rfs"
version = "0.1.0"
edition = "2021"
publish = false

[dependencies]
bytebuffer = "2"
clap = { version = "3", features = ["derive"] }
tokio = { version = "1", features = ["net", "io-util", "rt-multi-thread", "macros"] }

[dev-dependencies]
serde = "1"
serde_bytes = "0.11"
serde-xdr = "*"
