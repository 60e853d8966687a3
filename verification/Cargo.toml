[package]
name = "cow"
version = "0.1.0"
edition = "2021"
publish = false

[dependencies]
regex = "1"
percent-encoding = "2"
unicase = "2"
mime = "0.3"
http = "0.1"
hyper = "0.12"
futures = "0.1"
tokio = "0.1"
clap = "2"
config = { version = "0.10", default-features = false, features = ["toml"] }
serde = { version = "1", features = ["derive"] }
derive_more = "0.99"
log = "0.4"
pretty_env_logger = "0.4"
