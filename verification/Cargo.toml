[package]
name = "modbus_prometheus_api_server"
version = "0.1.0"
edition = "2021"
publish = false

[dependencies]
config = "0.13"
env_logger = "0.10"
log = "0.4"
prometheus = { version = "0.13", default-features = false }
serde = { version = "1", features = ["derive"] }
serde_json = "1"
tokio = { version = "1", features = ["macros", "rt-multi-thread", "sync", "time"] }
tokio-modbus = "0.7"
warp = "0.3"

[dev-dependencies]
regex = "1"
