[package]
name = "hin"
version = "0.1.0"
edition = "2021"
publish = false

[dependencies]
chrono = "*"
clap = { version = "*", features = ["derive"] }
git2 = "*"
home = "*"
directories = "*"
rust-ini = "*"
ansi_term = "*"
