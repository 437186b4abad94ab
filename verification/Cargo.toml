[package]
name = "decrypto"
version = "0.1.0"
edition = "2021"
publish = false

[dependencies]
indexmap = "2"
rand = "0.8"
serde = { version = "1", features = ["derive"] }
serde_json = "1"
actix = "0.13"
actix-web = "4"
actix-web-actors = "4"
actix-session = { version = "0.10", features = ["cookie-session"] }
actix-files = "0.6"
uuid = { version = "1", features = ["v4"] }
log = "0.4"
simple-logging = "2"
