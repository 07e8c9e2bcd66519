[package]
name = "courthouse"
version = "0.1.0"
edition = "2021"
publish = false

[dependencies]
mongodb = "=3.9.1"
serenity = "=0.12.5"
poise = "=0.7.0"
tracing = "0.1"
color-eyre = "0.6"
serde = { version = "1", features = ["derive"] }
tokio = { version = "1", features = ["macros", "rt-multi-thread"] }
