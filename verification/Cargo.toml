[package]
name = "bufcli"
version = "0.1.0"
edition = "2021"
publish = false

[dependencies]
bufkit-data = "*"
chrono = "*"
clap = "2"
crossbeam-channel = "*"
dirs = "*"
itertools = "*"
metfor = "*"
pbr = "*"
rusqlite = { version = "*", features = ["bundled"] }
sounding-analysis = "*"
sounding-bufkit = "*"
strum = "*"
threadpool = "*"

[dev-dependencies]
bincode = "1"
serde = "1"
