[package]
name = "trojan"
version = "0.1.0"
edition = "2021"
publish = false

[dependencies]
openssl = "=0.10.81"
tokio = { version = "*", features = ["io-util", "macros", "net", "rt-multi-thread"] }
tokio-openssl = "*"
tokio-stream = { version = "*", features = ["net"] }
serde = { version = "*", features = ["derive"] }
serde_json = "*"
clap = "*"
libc = "=0.2.190"
