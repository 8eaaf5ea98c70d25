[package]
name = "hbx"
version = "0.1.0"
edition = "2021"
publish = false

[dependencies]
md5 = "*"
anyhow = "*"
atomicwrites = "*"
dirs = "*"
serde = { version = "*", features = ["derive"] }
serde_json = "*"
walkdir = "*"
