[package]
name = "polymorph"
version = "0.1.0"
edition = "2021"
publish = false

[dependencies]
miniz_oxide = "*"
hashers = "*"
reqwest = { version = "*", default-features = false }
tokio = { version = "*", features = ["fs", "io-util", "macros", "rt-multi-thread"] }
clap = { version = "*", features = ["derive"] }
env_logger = "*"
log = "*"
thiserror = "*"
