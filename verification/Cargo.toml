[package]
name = "fuzzy_picker"
version = "0.1.0"
edition = "2021"
publish = false

[dependencies]
crossterm = "0.27"
ratatui = "0.23"
tui-input = "0.8"
