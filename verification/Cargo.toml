[package]
name = "ashell"
version = "0.1.0"
edition = "2021"
publish = false

[dependencies]
russh = "=0.51.1"
tokio = { version = "=1.54.1", features = ["rt", "sync", "macros"] }
anyhow = "=1.0.104"
async-trait = "=0.1.92"
directories = "=6.0.0"
tracing = "=0.1.44"
