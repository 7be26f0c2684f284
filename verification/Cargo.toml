[package]
name = "endorsers"
version = "0.1.0"
edition = "2021"
publish = false

[dependencies]
reqwest = { version = "0.11", features = ["blocking"] }
serde = { version = "1", features = ["derive"] }
serde-xml-rs = "0.5"
structopt = "0.3"
thiserror = "1"
