[package]
name = "mzdb"
version = "0.1.0"
edition = "2021"
publish = false

[dependencies]
clap = { version = "=4.6.7", features = ["derive"] }
tokio = { version = "=1.53.2", features = ["rt-multi-thread", "macros", "time", "sync", "io-util", "fs", "signal"] }
tonic = "=0.14.6"
tonic-prost = "*"
prost = "=0.14.4"
