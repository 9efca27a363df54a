[package]
name = "webconsole"
version = "0.1.0"
edition = "2021"
publish = false

[dependencies]
chrono = "*"
clap = { version = "*", features = ["derive"] }
http = "*"
http-body-util = "*"
hyper = { version = "*", features = ["http1", "http2", "server"] }
hyper-util = { version = "*", features = ["server", "server-auto", "tokio"] }
rustls = { version = "*", default-features = false, features = ["ring", "std", "tls12", "logging"] }
rustls-pemfile = "*"
surrealkv = "*"
tokio = { version = "*", features = ["full"] }
tokio-rustls = { version = "*", default-features = false, features = ["ring", "tls12", "logging"] }
