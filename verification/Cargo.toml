[package]
name = "slint_omarchy"
version = "0.1.0"
edition = "2021"
publish = false

[dependencies]
chrono = "0.4"
toml = "*"
webbrowser = "*"
