[package]
name = "spdm_lite_responder"
version = "0.1.0"
edition = "2021"
publish = false

[dependencies]
embassy-executor = "*"
embassy-sync = "*"
