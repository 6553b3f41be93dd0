[package]
name = "gardener"
version = "0.1.0"
edition = "2021"
publish = false

[dependencies]
clap = { version = "4", features = ["derive"] }
humansize = "2"
rootcause = "*"
rootcause-backtrace = "*"
serde = { version = "1", features = ["derive"] }
serde_json = "1"
systemd_tmpfiles = "*"
thiserror = "2"
