[package]
name = "reovim_core"
version = "0.1.0"
edition = "2021"
publish = false

[dependencies]
rustix = { version = "*", features = ["termios", "stdio", "fs"] }
parking_lot = "*"
futures = "0.3"
futures-timer = "*"
tokio = { version = "1", features = ["rt-multi-thread", "macros"] }
