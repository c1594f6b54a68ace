[package]
name = "dump_cat"
version = "0.1.0"
edition = "2021"
publish = false

[dependencies]
snap = "*"
bytes = "*"
crossbeam = "*"
structopt = "*"
evalexpr = "*"
serde = { version = "*", features = ["derive"] }
serde_json = "*"
log = "*"
env_logger = "*"
