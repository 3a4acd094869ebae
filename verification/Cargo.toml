[package]
name = "auto_stash"
version = "0.1.0"
edition = "2021"
publish = false

[dependencies]
flume = "*"
notify = "4"
