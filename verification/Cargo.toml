[package]
name = "rustic_fetch"
version = "0.1.0"
edition = "2021"
publish = false

[dependencies]
async-trait = "*"
env_logger = "*"
futures = "*"
indicatif = "*"
log = "*"
num_cpus = "*"
reqwest = { version = "*", default-features = false }
structopt = "*"
tokio = { version = "*", features = ["full"] }
