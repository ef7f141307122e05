[package]
name = "topfiles"
version = "0.1.0"
edition = "2021"
publish = false

[dependencies]
bisection = "*"
chrono = { version = "0.4", default-features = false, features = ["std"] }
clap = { version = "4", features = ["derive"] }
crossterm = "*"
futures = "0.3"
num-format = "*"
sorted-vec = "*"
tokio = { version = "1", features = ["rt-multi-thread", "macros", "sync", "time"] }
