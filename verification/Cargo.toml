[package]
name = "diana_srv"
version = "0.1.0"
edition = "2021"
publish = false

[dependencies]
serde = { version = "1", features = ["derive"] }
tokio = { version = "1", features = ["net", "rt-multi-thread", "io-util", "macros", "time"] }
toml = "0.8"
