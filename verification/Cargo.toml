[package]
name = "syfala"
version = "0.1.0"
edition = "2021"
publish = false

[dependencies]
priority-queue = "*"
rustc-hash = "*"
rtrb = "*"
