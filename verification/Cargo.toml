[package]
name = "evict"
version = "0.1.0"
edition = "2021"
publish = false

[dependencies]
chrono = "*"
hlc-gen = "*"
parking_lot = "*"
priority-queue = "*"
thiserror = "*"
