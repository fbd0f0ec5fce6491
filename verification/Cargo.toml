[package]
name = "rok"
version = "0.1.0"
edition = "2021"
publish = false

[dependencies]
bincode = "1.3"
ansi_term = "0.12"
bytes = "1"
clap = { version = "3.2", features = ["derive"] }
reqwest = { version = "0.11", default-features = false, features = ["json"] }
tokio = { version = "1", features = ["full"] }
tracing = "0.1"
tracing-subscriber = "0.3"
