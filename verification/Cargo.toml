[package]
name = "slate"
version = "0.1.0"
edition = "2021"
publish = false

[dependencies]
anyhow = "1"
crossterm = "*"
ignore = "*"
open = "*"
ratatui = "*"
ratatui-code-editor = "*"
walkdir = "2"
