[package]
name = "oxiilink"
version = "0.1.0"
edition = "2021"
publish = false

[dependencies]
axum = "0.6"
chrono = "0.4"
clap = { version = "4", features = ["derive"] }
html2text = "0.6"
image = { version = "0.24", default-features = false, features = ["png"] }
imageproc = "0.23"
lazy_static = "1"
memchr = "2"
rand = "0.8"
regex = "1"
rkyv = "0.7"
rocksdb = { version = "0.21", default-features = false, features = ["lz4"] }
rusttype = "0.9"
stretto = { version = "0.8", features = ["async"] }
syntect = { version = "5", default-features = false, features = ["default-fancy"] }
tokio = { version = "1", features = ["full"] }
tower-http = { version = "0.4", features = ["fs"] }
tracing = "0.1"
tracing-subscriber = "0.3"
url = "2"
