[package]
name = "ocj"
version = "0.1.0"
edition = "2021"
publish = false

[dependencies]
sha2 = "*"
rand = "0.9"
rand_core = "*"
tokio = { version = "*", features = ["full"] }
axum = "*"
tokio-tungstenite = "*"
futures = "*"
serde = { version = "*", features = ["derive"] }
serde_json = "*"
reqwest = { version = "*", default-features = false, features = ["blocking", "json"] }
chrono = "*"
colored = "*"
env_logger = "*"
log = "*"
local-ip-address = "*"
flate2 = "*"
tar = "*"
async-compression = { version = "*", features = ["tokio", "gzip"] }
tokio-tar = "*"
thiserror = "*"
