[package]
name = "rudder_lang"
version = "0.1.0"
edition = "2021"
publish = false

[dependencies]
backtrace = "0.3"
colored = "*"
env_logger = "*"
log = "0.4"

[dev-dependencies]
serde_json = "1"
