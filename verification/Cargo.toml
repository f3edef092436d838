[package]
name = "rskiller"
version = "0.3.3"
edition = "2021"
publish = false

[dependencies]
anyhow = "1"
chrono = { version = "0.4", features = ["serde"] }
clap = { version = "4", features = ["derive"] }
colored = "2"
crossterm = "0.27"
dirs = "5"
if_chain = "1"
ratatui = "0.23"
serde = { version = "1", features = ["derive"] }
spinoff = "0.8"
tokio = { version = "1", features = ["rt-multi-thread", "macros"] }
walkdir = "2"
