[package]
name = "tcrelay"
version = "0.1.0"
edition = "2021"
publish = false

[dependencies]
http = "1"
clap = { version = "4", features = ["derive", "env"] }
http-body-util = "0.1"
hyper = { version = "1", features = ["client", "http1", "server"] }
hyper-util = { version = "0.1", features = ["tokio"] }
lazy_static = "1"
parking_lot = "0.12"
tokio = { version = "1", features = ["macros", "net", "rt-multi-thread", "sync"] }
tokio-rustls = { version = "0.26", default-features = false, features = ["ring", "tls12"] }
webpki-roots = "0.26"
