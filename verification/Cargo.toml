[package]
name = "mini_geojson"
version = "0.1.0"
edition = "2021"
publish = false

[dependencies]
sonic-rs = "*"
log = "*"
pretty_env_logger = "*"
size = "*"
thiserror = "*"
