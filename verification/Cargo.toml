[package]
name = "dimers"
version = "0.1.0"
edition = "2021"

[dependencies]
druid = "0.7"
nalgebra = "*"
