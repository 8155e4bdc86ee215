[package]
name = "society_sim"
version = "0.1.0"
edition = "2021"
publish = false

[dependencies]
rand = "*"
crossterm = "*"
ratatui = "*"
