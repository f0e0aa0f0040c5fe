[package]
name = "hdl_sv"
version = "2.0.0"
edition = "2021"
publish = false

[dependencies]
base64 = "0.22"
chrono = "0.4"
clap = { version = "4", features = ["derive"] }
env_logger = "0.10"
glob = "0.3"
humansize = "1.1"
log = "0.4"
