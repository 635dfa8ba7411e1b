[package]
name = "wanna_cdn"
version = "0.1.0"
edition = "2021"
publish = false

[dependencies]
md5 = "=0.7.0"
hex = "=0.4.3"
base64-url = "=3.0.5"
anyhow = "1"
async-stream = "0.3"
async-trait = "0.1"
bytes = "1"
chrono = "0.4"
clap = { version = "4", features = ["derive", "env"] }
dotenvy = "0.15"
env_logger = "0.11"
futures = "0.3"
log = "0.4"
notify = "=8.2.1"
obws = "=0.15.0"
once_cell = "1"
reqwest = { version = "=0.11.27", default-features = false, features = ["stream"] }
rsmpeg = "*"
rtsp-types = "=0.1.3"
serde = { version = "1", features = ["derive"] }
serde_json = "1"
thiserror = "1"
tokio = { version = "1", features = ["full"] }
uuid = { version = "1", features = ["v4"] }
warp = { version = "=0.3.7", default-features = false }
warp-real-ip = "0.2"
