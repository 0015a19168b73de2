[package]
name = "prosto"
version = "0.1.0"
edition = "2021"
publish = false

[dependencies]
zstd = "*"
prost = "*"
tokio = { version = "*", default-features = false, features = ["sync"] }
futures = "*"
thiserror = "*"
