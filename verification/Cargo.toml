[package]
name = "session_carrier"
version = "0.1.0"
edition = "2021"

[dependencies]
rmp-serde = "1"
serde = "1"
