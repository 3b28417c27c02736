[package]
name = "brave-shields-cli"
version = "0.1.0"
edition = "2021"
publish = false

[dependencies]
anyhow = "1"
base64 = "0.22"
chrono = "0.4"
clap = { version = "4", features = ["derive", "env"] }
comfy-table = "7"
ctrlc = "3"
fs2 = "0.4"
rusty-leveldb = "*"
serde_json = "1"
sysinfo = "*"
tempfile = "3"
