[package]
name = "crucible"
version = "0.1.0"
edition = "2021"
publish = false

[dependencies]
chrono = "0.4"
indexmap = "2"
cliclack = "*"
thiserror = "2"
