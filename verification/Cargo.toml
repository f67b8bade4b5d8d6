[package]
name = "northship"
version = "0.1.0"
edition = "2021"
publish = false

[dependencies]
chrono = "=0.4.45"
diesel = { version = "=2.3.14", features = ["sqlite", "chrono"] }
ruma-client = { version = "=0.20.0", features = ["client-api", "hyper-native-tls"] }
ruma-events = "=0.35.2"
ruma-identifiers = "=0.22.1"
url = "=2.5.8"
hyper = "=1.12.0"
tokio = { version = "=1.54.1", features = ["full"] }
futures = "0.3"
