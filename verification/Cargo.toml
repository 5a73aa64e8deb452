[package]
name = "introbot"
version = "0.1.0"
edition = "2021"
publish = false

[dependencies]
bimap = "0.6"
failure = "0.1"
regex = "1"
serenity = "0.12"
tokio = { version = "1", features = ["macros", "rt-multi-thread", "sync", "time"] }
tracing = "0.1"
tracing-subscriber = "0.3"
