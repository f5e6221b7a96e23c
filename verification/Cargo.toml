[package]
name = "payments_engine"
version = "0.1.0"
edition = "2021"
publish = false

[dependencies]
anyhow = "1"
bigdecimal = "0.3"
csv = "1"
serde = { version = "1", features = ["derive"] }
structopt = "0.3"
