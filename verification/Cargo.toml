[package]
name = "battle_sim"
version = "0.1.0"
edition = "2021"
publish = false

[dependencies]
fastrand = "*"
async-std = "*"
crossterm = { version = "*", features = ["event-stream"] }
futures = "*"
futures-timer = "*"
