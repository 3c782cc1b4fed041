[package]
name = "microservice"
version = "0.1.0"
edition = "2021"
publish = false

[dependencies]
rand = "0.8"
rand_distr = "0.4"
hyper = { version = "0.14", features = ["full"] }
tokio = { version = "1", features = ["full"] }
futures = "0.3"
clap = "2"
log = "0.4"
env_logger = "*"
toml = "*"
serde = "*"
serde_derive = "*"
