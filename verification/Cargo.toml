[package]
name = "multigrep"
version = "0.1.0"
edition = "2021"
publish = false

[dependencies]
regex = "*"
structopt = "*"
tokio = { version = "*", default-features = false, features = ["rt-multi-thread", "macros", "io-std", "io-util", "sync", "time"] }
