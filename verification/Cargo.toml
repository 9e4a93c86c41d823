[package]
name = "cacheproxy"
version = "0.1.0"
edition = "2021"
publish = false

[dependencies]
sled = "0.34"
blake3 = "1"
chrono = "0.4"
log = "0.4"
pretty_env_logger = "0.4"
structopt = "0.3"
config = "0.11"
tokio = { version = "1", features = ["full"] }
warp = "0.3"
warp-reverse-proxy = "1"
