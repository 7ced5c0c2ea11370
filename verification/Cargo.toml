[package]
name = "simcore"
version = "0.1.0"
edition = "2021"
publish = false

[dependencies]
rand = "=0.8.8"
serde = { version = "=1.0.229", features = ["derive"] }
rmp-serde = "=1.3.1"
tokio = { version = "=1.53.2", features = ["rt", "rt-multi-thread", "sync", "time", "macros"] }
warp = { version = "=0.4.3", features = ["server", "websocket"] }
futures-util = "=0.3.34"
log = "=0.4.34"
pretty_env_logger = "=0.5.0"
noise = "=0.9.0"
image = { version = "=0.25.10", default-features = false, features = ["png"] }
fps_counter = "=3.0.0"
