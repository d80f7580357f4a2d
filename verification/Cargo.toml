[package]
name = "moai_time"
version = "0.1.0"
edition = "2021"
publish = false

[dependencies]
clap = "2"
indicatif = "0.15"
