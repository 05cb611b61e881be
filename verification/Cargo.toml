[package]
name = "zskins"
version = "0.1.0"
edition = "2021"
publish = false

[dependencies]
nucleo-matcher = "=0.3.1"
serde = { version = "=1.0.229", features = ["derive"] }
serde_json = "=1.0.154"
rusqlite = { version = "=0.41.1", features = ["bundled"] }
thiserror = "=2.0.21"
anyhow = "=1.0.104"
async-channel = "=2.5.0"
async-io = "=2.6.0"
futures-lite = "=2.6.1"
tracing = "=0.1.44"
tracing-subscriber = { version = "=0.3.23", features = ["env-filter"] }
log = "=0.4.35"
env_logger = "=0.11.11"
chrono = "=0.4.45"
rayon = "=1.12.0"
zbus = "=5.19.0"
ddc = "=0.2.2"
ddc-i2c = { version = "=0.2.2", features = ["with-linux"] }
wayland-client = "=0.31.15"
wayland-protocols = { version = "=0.32.13", features = ["client", "staging"] }

[dev-dependencies]
tempfile = "=3.27.0"
