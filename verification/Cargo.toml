[package]
name = "peerwire"
version = "0.1.0"
edition = "2021"
publish = false

[dependencies]
rust-crypto = "*"
sha1 = "*"
bendy = "*"
bytes = "*"
reqwest = { version = "*", default-features = false }
serde = { version = "*", features = ["derive"] }
tokio = { version = "*", features = ["rt", "net", "time", "io-util", "sync", "macros"] }
url = "*"
