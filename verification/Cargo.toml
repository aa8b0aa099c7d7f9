[package]
name = "credvault"
version = "0.1.0"
edition = "2021"
publish = false

[dependencies]
ring = "*"
sled = "*"
uuid = { version = "*", features = ["v4"] }
chrono = "*"
dirs = "*"
tui = { version = "*", features = ["crossterm"] }
crossterm = "0.25"
clipboard = "*"
zxcvbn = "*"
