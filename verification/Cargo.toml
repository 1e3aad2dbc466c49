[package]
name = "flow_agent_core"
version = "0.1.0"
edition = "2021"
publish = false

[dependencies]
cap-fs-ext = "=3.4.6"
cap-std = "=3.4.6"
reqwest = { version = "=0.12.28", default-features = false, features = ["rustls-tls-webpki-roots-no-provider"] }
rustix = { version = "=1.1.6", features = ["fs", "process"] }
rustls = { version = "0.23", default-features = false, features = ["ring", "std"] }
serde = { version = "=1.0.229", features = ["derive"] }
serde_json = "=1.0.154"
sha2 = "=0.11.1"
tokio = { version = "=1.54.1", features = ["rt", "time", "net"] }
