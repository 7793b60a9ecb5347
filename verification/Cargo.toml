[package]
name = "quote_server"
version = "0.1.0"
edition = "2021"
publish = false

[dependencies]
clap = { version = "4", features = ["derive"] }
log = "0.4"
rkyv = "0.8"
socket2 = "0.5"
tracing-subscriber = "0.3"
