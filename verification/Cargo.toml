[package]
name = "easy_read"
version = "0.1.0"
edition = "2021"
publish = false

[dependencies]
ammonia = "*"
base64 = "*"
chardetng = "*"
encoding_rs = "*"
percent-encoding = "*"
pulldown-cmark = "*"
roxmltree = "*"
serde = { version = "1", features = ["derive"] }
serde_json = "1"
zip = { version = "*", default-features = false, features = ["deflate"] }
