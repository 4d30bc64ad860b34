[package]
name = "relay_gate"
version = "0.1.0"
edition = "2021"
publish = false

[dependencies]
bytes = "1"
console = "*"
copy_in_place = "*"
futures = "0.3"
log = "0.4"
log4rs = "1"
socket2 = { version = "0.5", features = ["all"] }
tokio = { version = "1", features = ["full"] }
tokio-stream = "0.1"
tokio-util = { version = "0.7", features = ["codec"] }
