[package]
name = "spdx_expression"
version = "0.5.2"
edition = "2021"
publish = false

[dependencies]
thiserror = "1"

[dev-dependencies]
nom = "7"
