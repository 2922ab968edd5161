[package]
name = "hermes"
version = "0.1.0"
edition = "2021"
publish = false

[dependencies]
clap = { version = "4", features = ["derive"] }
diesel = { version = "2", features = ["sqlite"] }
lettre = "0.11"
serde_json = "1"
