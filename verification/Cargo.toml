[package]
name = "zyris-docker"
version = "0.1.0"
edition = "2021"
publish = false

[dependencies]
async-trait = "=0.1.92"
futures-util = "=0.3.34"
libc = "=0.2.191"
schemars = "=1.2.3"
serde = { version = "=1.0.229", features = ["derive"] }
serde_json = "=1.0.154"
tokio = { version = "=1.54.1", features = ["full"] }
tracing = "=0.1.44"
tracing-subscriber = { version = "=0.3.23", features = ["env-filter"] }
zyris = { version = "=0.3.0", features = ["enroll"] }
zyris-attacca = "=0.3.0"
zyris-capkit = "=0.3.0"
zyris-caps = "=0.3.0"

[dev-dependencies]
tempfile = "=3.27.0"
