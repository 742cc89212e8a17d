[package]
name = "auto_desk"
version = "0.5.0"
edition = "2021"
publish = false

[dependencies]
procfs = "=0.18.0"
tokio = { version = "=1.53.2", features = ["full"] }
online = "=4.0.2"
clap = "=4.6.7"
fern = "=0.7.1"
log = "=0.4.34"
serde = { version = "=1.0.229", features = ["derive"] }
serde_yaml = "=0.9.34"
toml = "=1.1.0"
shellexpand = "=3.1.2"
sysinfo = "=0.39.6"
local-ip-address = "=0.6.13"
regex = "=1.13.1"
xdg = "=3.0.0"
