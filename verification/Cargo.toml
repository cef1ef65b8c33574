[package]
name = "chat_box"
version = "0.1.0"
edition = "2021"
publish = false

[dependencies]
chrono = "*"
colorhash = "*"
textwrap = "*"
ratatui = "*"
