[package]
name = "like_and_subscribe"
version = "0.1.0"
edition = "2021"
publish = false

[dependencies]
bstr = "=1.13.1"
jiff = "=0.2.38"
oauth2 = "=5.0.0"
reqwest = { version = "=0.12.28", default-features = false, features = ["rustls-tls"] }
serde = { version = "*", features = ["derive"] }
serde_json = "*"
tokio = { version = "=1.53.2", features = ["rt-multi-thread", "macros", "sync", "time"] }
