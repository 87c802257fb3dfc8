[package]
name = "xylitol"
version = "0.1.0"
edition = "2021"
publish = false

[dependencies]
unicode-width = "=0.2.3"
crossterm = "=0.28.1"
thiserror = "=2.0.21"
uuid = { version = "=1.29.0", features = ["v4"] }
ratatui-core = "*"
