[package]
name = "docker_exporter"
version = "0.1.0"
edition = "2021"
publish = false

[dependencies]
chrono = { version = "0.4", default-features = false, features = ["std", "alloc"] }
ctrlc = "3"
futures = "0.3"
hyper = { version = "0.14", features = ["client", "http1"] }
hyperlocal = "0.8"
log = "0.4"
prometheus = "0.14"
serde = { version = "1", features = ["derive"] }
serde_json = "1"
simplelog = "0.12"
tiny_http = "0.12"
tokio = { version = "1", features = ["macros", "rt-multi-thread", "time"] }
