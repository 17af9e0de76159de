[package]
name = "rcmd_suit"
version = "0.1.0"
edition = "2021"
publish = false

[dependencies]
flate2 = "=1.1.10"
rsa = "=0.4.1"
rand = "=0.8.8"
tokio = { version = "=1.54.1", features = ["full"] }
get_if_addrs = "=0.5.3"
getopts = "=0.2.24"
serde = { version = "1", features = ["derive"] }
serde_json = "1"
