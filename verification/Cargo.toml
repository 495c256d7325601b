[package]
name = "wadachi"
version = "0.1.0"
edition = "2021"
publish = false

[dependencies]
chrono = "0.4"
scraper = "*"
surf = { version = "2", default-features = false, features = ["h1-client-rustls"] }
async-std = { version = "1", features = ["attributes"] }
clap = "2"
