[package]
name = "mlp_trainer"
version = "0.1.0"
edition = "2021"
publish = false

[dependencies]
rand = "*"
memory-stats = "*"
