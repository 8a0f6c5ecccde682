[package]
name = "code_remote"
version = "0.1.0"
edition = "2021"
publish = false

[dependencies]
color-eyre = "=0.6.5"
crossterm = "=0.28.1"
ratatui = "=0.28.1"
rpassword = "=7.5.4"
ssh2 = "=0.9.6"
tui-textarea = "=0.6.1"
