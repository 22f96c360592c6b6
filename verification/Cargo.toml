[package]
name = "ccap"
version = "0.1.0"
edition = "2021"

[dependencies]
clap = "2"
