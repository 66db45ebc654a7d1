[package]
name = "nodi"
version = "0.1.0"
edition = "2021"
publish = false

[dependencies]
md5-rs = "*"
anyhow = "*"
clap = { version = "*", features = ["derive"] }
sqlx = { version = "*", default-features = false, features = ["sqlite", "runtime-tokio"] }
tokio = { version = "*", features = ["fs", "io-util", "macros", "rt-multi-thread"] }
walkdir = "*"
