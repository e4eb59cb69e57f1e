[package]
name = "sched"
version = "0.1.0"
edition = "2021"
publish = false

[dependencies]
chrono = "0.4"
regex = "1"
sled = "0.34"
