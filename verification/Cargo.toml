[package]
name = "weave"
version = "0.2.0"
edition = "2021"
publish = false

[dependencies]
mime_guess = "2"
hyper = { version = "0.14", features = ["client", "server", "http1", "http2", "tcp"] }
hyper-tls = "0.5"
tokio = { version = "1", features = ["rt-multi-thread", "macros", "fs", "net"] }
clap = "2"
log = "0.4"
ansi_term = "0.12"
futures = "0.3"
futures-util = "0.3"
