[package]
name = "audit_notifier_core"
version = "0.1.0"
edition = "2021"
publish = false

[dependencies]
rand = "=0.10.3"
serde = { version = "=1.0.229", features = ["derive"] }
toml = "=1.1.7"
dirs-next = "=2.0.0"
structopt = "=0.3.26"
inotify = "=0.11.5"
env_logger = "=0.11.11"
log = "=0.4.34"
