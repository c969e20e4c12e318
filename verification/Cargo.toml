[package]
name = "irisqo"
version = "0.1.0"
edition = "2021"
publish = false

[dependencies]
cron = "*"
chrono = "*"
ulid = "*"
whoami = "*"
