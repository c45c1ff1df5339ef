[package]
name = "bluerobotics_ping"
version = "0.1.0"
edition = "2021"
publish = false

[dependencies]
tokio = { version = "=1.54.1", default-features = false, features = ["sync", "rt", "time", "io-util"] }
serde_json = "=1.0.154"
quote = "=1.0.47"
proc-macro2 = "=1.0.107"
convert_case = "=0.6.0"
