[package]
name = "botcore"
version = "0.1.0"
edition = "2021"
publish = false

[dependencies]
anyhow = "*"
clap = { version = "*", features = ["derive"] }
dotenvy = "*"
poise = "0.5"
tokio = { version = "*", features = ["macros", "rt-multi-thread"] }
