[package]
name = "bib"
version = "0.1.0"
edition = "2021"
publish = false

[dependencies]
actix-rt = "=2.15.0"
actix-session = "=0.5.0"
actix-web = "=4.18.1"
bson = "=2.15.0"
chrono = "0.4"
chrono-tz = "0.10"
env_logger = "=0.9.3"
futures = "=0.3.34"
lazy_static = "=1.5.1"
log = "=0.4.35"
mongodb = { version = "=2.8.2", default-features = false, features = ["async-std-runtime"] }
rand = "=0.8.8"
rand_chacha = "=0.3.1"
serde = { version = "=1.0.229", features = ["derive"] }
shared_mongodb = "=0.1.7"
tokio = { version = "=1.54.1", features = ["macros", "rt-multi-thread", "sync"] }
