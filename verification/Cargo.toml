[package]
name = "peerwire"
version = "0.1.0"
edition = "2021"
publish = false

[dependencies]
anyhow = "1"
percent-encoding = "2"
rand = "0.8"
reqwest = { version = "0.12", default-features = false }
serde = { version = "1", features = ["derive"] }
serde_bencode = "0.2"
serde_bytes = "0.11"
sha1 = "0.10"
tokio = { version = "1", features = ["macros", "rt-multi-thread", "net", "io-util", "time"] }
url = "2"
