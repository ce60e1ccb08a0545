[package]
name = "darwin-sdk"
version = "0.1.0"
edition = "2021"
publish = false

[dependencies]
thiserror = "2"
chrono = "0.4"
tokio = { version = "1", features = ["macros", "rt-multi-thread", "time"] }
