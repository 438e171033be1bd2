[package]
name = "food_ingest"
version = "0.1.0"
edition = "2021"
publish = false

[dependencies]
csv = "1"
postgres = "0.19"
clap = { version = "4", features = ["derive"] }
dotenvy = "0.15"
anyhow = "1"
