[package]
name = "rustgammon"
version = "0.1.0"
edition = "2021"

[dependencies]
rand = "0.7"
log = "0.4"
log4rs = "1"
