[package]
name = "polders"
version = "0.1.0"
edition = "2021"
publish = false

[dependencies]
bracket-lib = "=0.8.7"
bracket-terminal = "=0.8.7"
