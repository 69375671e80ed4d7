[package]
name = "zed_web"
version = "0.1.0"
edition = "2021"
publish = false

[dependencies]
anyhow = "1"
async-compression = { version = "0.4", features = ["futures-io", "gzip"] }
async-tar = "*"
bytes = "1"
chrono = "0.4"
futures = "0.3"
http-body-util = "0.1"
hyper = { version = "1", features = ["full"] }
hyper-util = { version = "0.1", features = ["tokio", "server", "client"] }
jsonwebtoken = { version = "10", default-features = false, features = ["use_pem", "rust_crypto"] }
jupyter-protocol = "*"
libsqlite3-sys = { version = "0.30", features = ["bundled"] }
log = "0.4"
multer = "3"
nbformat = "*"
parking_lot = "0.12"
percent-encoding = "2"
serde = { version = "1", features = ["derive"] }
serde_json = "1"
subtle = "2"
thiserror = "2"
thread_local = "1"
tokio = { version = "1", features = ["full"] }
uuid = { version = "1", features = ["v4"] }
vte = { version = "0.15", features = ["ansi"] }
web-time = "1"
yawc = "*"
