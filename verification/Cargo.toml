[package]
name = "fill_report"
version = "0.1.0"
edition = "2021"
publish = false

[dependencies]
calamine = { version = "=0.36.1", features = ["dates"] }
chrono = "=0.4.45"
csv = "=1.4.0"
clap = { version = "=4.6.7", features = ["derive"] }
