[package]
name = "branlly"
version = "0.1.0"
edition = "2021"
publish = false

[dependencies]
url = "2"
serde = { version = "1", features = ["derive"] }
serde_json = "1"
thiserror = "2"
async-trait = "0.1"
tokio = { version = "1", features = ["process", "macros", "rt-multi-thread", "sync", "time"] }
tokio-util = "0.7"
futures-util = "0.3"
async-stream = "0.3"
reqwest = { version = "0.12", default-features = false, features = ["json", "stream", "rustls-tls"] }
atomic-write-file = "0.2"
dirs = "6"
log = "0.4"
