[package]
name = "daylight"
version = "0.1.0"
edition = "2021"
publish = false

[dependencies]
tokio = { version = "=1.53.2", features = ["sync", "time", "rt", "net", "io-util"] }
serde = { version = "1", features = ["derive"] }
dirs = "=7.0.0"
notify = "=8.2.0"
tiny_http = "=0.12.0"
reqwest = { version = "=0.13.5", default-features = false, features = ["blocking"] }

[dev-dependencies]
url = "=2.5.8"
