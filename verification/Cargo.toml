[package]
name = "exar"
version = "0.1.0"
edition = "2021"
publish = false

[dependencies]
rand = "0.8"
build_id = "*"
chrono = "0.4"
anyhow = "*"
clap = { version = "4", features = ["derive"] }
dirs = "*"
itertools = "*"
lazy_static = "*"
log = "*"
rpassword = "*"
serde = { version = "1", features = ["derive"] }
serde_json = "1"
serde_yaml = "*"
statrs = "*"
tabled = "*"
termion = "*"
