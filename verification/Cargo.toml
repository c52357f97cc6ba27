[package]
name = "manager"
version = "0.1.0"
edition = "2021"
publish = false

[dependencies]
ctrlc = "*"
env_logger = "*"
kafka = "*"
log = "*"
ron = "*"
serde = { version = "*", features = ["derive"] }
