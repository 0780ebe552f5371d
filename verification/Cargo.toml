[package]
name = "cors_policy"
version = "0.1.0"
edition = "2021"
publish = false

[dependencies]
actix-service = "2"
actix-web = { version = "4", default-features = false }
futures-util = { version = "0.3", default-features = false }
log = "0.4"
