[package]
name = "es_deep_pager"
version = "0.1.0"
edition = "2021"
publish = false

[dependencies]
elasticsearch = { version = "8.5.0-alpha.1", default-features = false, features = ["rustls-tls"] }
tokio = { version = "1", features = ["rt-multi-thread", "macros"] }
rand = "0.8"
