[package]
name = "typed_headers"
version = "0.1.0"
edition = "2021"
publish = false

[dependencies]
base64 = "0.10"
bytes = "0.4"
chrono = { version = "0.4", default-features = false, features = ["std"] }
http = "0.1"
language-tags = "0.2"
mime = "0.3"
percent-encoding = "1.0"
unicase = "2"
