[package]
name = "portfolio_optimizer"
version = "0.1.0"
edition = "2021"
publish = false

[dependencies]
rand = "*"
anyhow = "*"
log = "*"
env_logger = "*"
plotters = "*"
polars = { version = "*", default-features = false, features = ["csv"] }
