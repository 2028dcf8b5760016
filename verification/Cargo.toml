[package]
name = "pcb_extract"
version = "0.1.0"
edition = "2021"
publish = false

[dependencies]
cfb = "*"
clap = { version = "4", features = ["derive"] }
env_logger = "*"
flate2 = "1"
log = "0.4"
postcard = { version = "1", features = ["alloc"] }
roxmltree = "*"
serde = { version = "1", features = ["derive"] }
serde_json = "1"
thiserror = "*"
zip = { version = "*", default-features = false, features = ["deflate"] }
