[package]
name = "autobahn"
version = "0.1.0"
edition = "2021"
publish = false

[dependencies]
anyhow = "1"
async-trait = "0.1"
bytes = "1"
env_logger = "0.11"
futures = "0.3"
futures-util = "0.3"
get_if_addrs = "0.5"
log = "0.4"
mdns-sd = "0.11"
once_cell = "1"
prost = "0.13"
serde = { version = "1", features = ["derive"] }
tokio = { version = "1", features = ["full"] }
tokio-tungstenite = "0.26"
toml = "0.8"
tungstenite = "0.26"
uuid = { version = "1", features = ["v4"] }
