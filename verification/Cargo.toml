[package]
name = "c_chess"
version = "0.1.0"
edition = "2021"

[dependencies]
ansi_term = "0.12"
fastrand = "2"
