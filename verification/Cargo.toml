[package]
name = "fluxbridge"
version = "0.1.0"
edition = "2021"
publish = false

[dependencies]
anyhow = "*"
arboard = "*"
futures = "*"
hostname = "*"
mdns-sd = "*"
tokio = { version = "*", features = ["full"] }
tokio-util = { version = "*", features = ["codec"] }
uuid = { version = "*", features = ["v4"] }
