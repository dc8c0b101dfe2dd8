[package]
name = "tictactoe"
version = "0.1.0"
edition = "2021"
publish = false

[dependencies]
tokio = { version = "=1.54.1", features = ["rt-multi-thread", "macros", "net", "io-util", "sync"] }
clap = { version = "=4.6.7", features = ["derive"] }
parking_lot = "=0.12.5"
integer-encoding = "3"
