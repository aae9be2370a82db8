[package]
name = "neemata_proxy"
version = "0.1.0"
edition = "2021"
publish = false

[dependencies]
arc-swap = "1"
async-trait = "0.1"
futures = "0.3"
http = "1"
log = "0.4"
napi = { version = "3", default-features = false, features = ["napi4", "async", "tokio_rt"] }
napi-derive = "3"
pingora = { version = "*", default-features = false, features = ["lb", "proxy"] }
tokio = { version = "1", features = ["rt", "rt-multi-thread", "sync", "macros", "net", "time"] }
tokio-util = "0.7"
