[package]
name = "lucky_daemon"
version = "0.1.0"
edition = "2021"
publish = false

[dependencies]
anyhow = "=1.0.104"
atty = "=0.2.14"
clap = { version = "=4.6.7", features = ["cargo"] }
crossterm = "=0.29.0"
dirs = "=7.0.0"
lazy_static = "=1.5.1"
log = "=0.4.34"
serde = { version = "=1.0.229", features = ["derive"] }
serde_json = "=1.0.154"
termimad = "=0.35.5"
thiserror = "=2.0.21"
varlink = "=13.0.0"
