[package]
name = "rustchat"
version = "0.1.0"
edition = "2021"
publish = false

[dependencies]
textwrap = "*"
tokio = { version = "*", features = ["rt-multi-thread", "macros", "sync", "net", "io-util", "time"] }
crossterm = "*"
whoami = "*"
