[package]
name = "lazymc"
version = "0.1.0"
edition = "2021"
publish = false

[dependencies]
tokio = { version = "=1.53.2", features = ["full"] }
futures = "=0.3.34"
log = "=0.4.34"
pretty_env_logger = "=0.5.0"
dotenv = "=0.15.0"
bytes = "=1.12.1"
