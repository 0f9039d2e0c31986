[package]
name = "life_sim"
version = "0.1.0"
edition = "2021"
publish = false

[dependencies]
nannou = "0.16"
