[package]
name = "prover"
version = "0.1.0"
edition = "2021"
publish = false

[dependencies]
hex = "0.4"
sha3 = "0.10"
actix-web = { version = "4", default-features = false, features = ["macros", "compress-gzip"] }
env_logger = "0.11"
log = "0.4"
num_cpus = "1"
once_cell = "1"
serde = { version = "1", features = ["derive"] }
serde_json = "1"
tokio = { version = "1", features = ["rt", "rt-multi-thread", "macros"] }
