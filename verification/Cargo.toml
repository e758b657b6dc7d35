[package]
name = "time_event"
version = "0.1.0"
edition = "2021"
publish = false

[dependencies]
chrono = "0.4"
dirs = "*"
gag = "1"
notify = "*"
thiserror = "*"
