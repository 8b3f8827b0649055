[package]
name = "dirview"
version = "0.1.0"
edition = "2021"
publish = false

[dependencies]
syntect = "5"
ratatui = "0.30"
crossterm = "*"
color-eyre = "*"
