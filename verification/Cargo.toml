[package]
name = "aws_profile_select"
version = "0.1.0"
edition = "2021"
publish = false

[dependencies]
config = { version = "*", default-features = false, features = ["ini"] }
clap = { version = "4", features = ["derive"] }
dialoguer = "*"
dirs = "*"
