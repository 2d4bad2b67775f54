[package]
name = "pocket3d"
version = "0.1.0"
edition = "2021"
publish = false

[dependencies]
anyhow = "=1.0.104"
clap = { version = "4", features = ["derive"] }
glam = "=0.34.2"
thiserror = "=2.0.21"
