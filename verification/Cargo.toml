[package]
name = "bullfinch"
version = "0.1.0"
edition = "2021"
publish = false

[dependencies]
url = "2"
scraper = "*"
clap = "4"
crossbeam-channel = "0.5"
reqwest = { version = "0.12", default-features = false, features = ["blocking", "rustls-tls"] }
actix-web = "4"
serde = { version = "1", features = ["derive"] }
