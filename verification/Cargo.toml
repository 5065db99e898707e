[package]
name = "bulk_react"
version = "0.1.0"
edition = "2021"
publish = false

[dependencies]
clap = { version = "*", features = ["derive", "env"] }
serde = { version = "1", features = ["derive"] }
ureq = { version = "2", features = ["json"] }
