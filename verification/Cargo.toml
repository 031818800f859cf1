[package]
name = "diggeo"
version = "0.1.0"
edition = "2021"
publish = false

[dependencies]
serde_json = "1"
clap = { version = "4", features = ["derive"] }
atty = "0.2"
reqwest = { version = "*", default-features = false, features = ["blocking"] }
