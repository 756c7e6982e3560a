[package]
name = "route_dispatch"
version = "0.1.0"
edition = "2021"
publish = false

[dependencies]
rocket = { version = "0.5", features = ["json", "secrets"] }
serde = "=1.0.229"
serde_derive = "=1.0.229"
