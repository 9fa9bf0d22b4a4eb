[package]
name = "ch2rs"
version = "0.1.0"
edition = "2021"
publish = false

[dependencies]
anyhow = "*"
clickhouse = "*"
heck = "*"
serde = { version = "*", features = ["derive"] }
structopt = "*"
tokio = { version = "*", features = ["rt", "macros"] }
