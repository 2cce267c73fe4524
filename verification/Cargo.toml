[package]
name = "platypus"
version = "0.1.0"
edition = "2021"
publish = false

[dependencies]
chrono = "0.4"
dirs = "5"
lazy_static = "1"
log = "0.4"
once_cell = "1"
pdf-extract = "0.7"
rusqlite = { version = "0.29", features = ["bundled"] }
serde_json = "1"
sysinfo = "0.30"
tokio = { version = "1", default-features = false, features = ["rt-multi-thread", "time"] }
zip = "0.6"
