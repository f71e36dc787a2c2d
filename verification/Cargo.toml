[package]
name = "fde_core"
version = "0.1.0"
edition = "2021"
publish = false

[dependencies]
anyhow = "*"
owo-colors = "*"
promkit = "*"
serde = { version = "*", features = ["derive"] }
serde_json = "*"
tabled = "*"
xml-rs = "*"
