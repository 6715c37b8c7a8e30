[package]
name = "resources"
version = "0.1.0"
edition = "2021"
publish = false

[dependencies]
anyhow = "1"
clap = { version = "4", features = ["derive"] }
futures = "0.3"
gio-unix = "*"
glob = "0.3"
gtk4 = "*"
lazy-regex = "3"
libadwaita = "*"
libc = "0.2"
log = "0.4"
num_cpus = "1"
nvml-wrapper = "*"
pretty_env_logger = "0.5"
rust-ini = "0.21"
serde = { version = "1", features = ["derive"] }
serde_json = "1"
uzers = "*"
