[package]
name = "asteria"
version = "0.1.0"
edition = "2021"
publish = false

[dependencies]
rustls = { version = "0.23", default-features = false, features = ["std"] }
webpki-roots = "0.26"
serde_json = "1"
