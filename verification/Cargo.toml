[package]
name = "supvan"
version = "0.5.1"
edition = "2021"
publish = false

[dependencies]
async-trait = "0.1"
bluer = { version = "0.17", features = ["bluetoothd"] }
clap = { version = "4", features = ["derive"] }
env_logger = "0.11"
futures-util = "0.3"
ipp-printer-app = "*"
liblzma = "0.4"
log = "0.4"
parking_lot = "0.12"
serde = { version = "1", features = ["derive"] }
tokio = { version = "1", features = ["rt-multi-thread", "macros", "time"] }
toml = "1.0"
