[package]
name = "stream_more"
version = "0.1.0"
edition = "2021"
publish = false

[dependencies]
compare = "=0.1.0"
futures = "=0.3.34"
pin-project-lite = "=0.2.17"

[dev-dependencies]
anyhow = "=1.0.104"
