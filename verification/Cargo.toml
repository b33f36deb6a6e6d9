[package]
name = "usrbio"
version = "0.1.0"
edition = "2021"
publish = false

[dependencies]
num_cpus = "1"
tokio = { version = "1", features = ["rt-multi-thread", "sync", "time", "macros"] }
serde = { version = "1", features = ["derive"] }
serde_json = "1"
toml = "0.8"
log = "0.4"
async-trait = "0.1"
