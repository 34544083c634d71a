[package]
name = "worktree"
version = "0.1.0"
edition = "2021"
publish = false

[dependencies]
anyhow = "*"
crossbeam-channel = "*"
easy-parallel = "*"
ignore = "*"
log = "*"
parking_lot = "*"
postage = "*"
