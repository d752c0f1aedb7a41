[package]
name = "polish"
version = "0.1.0"
edition = "2021"
publish = false

[dependencies]
lasso = "0.7"
ansi_term = "0.12"
rustyline = "10"
