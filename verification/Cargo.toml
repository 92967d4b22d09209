[package]
name = "aihasto_bot"
version = "0.1.0"
edition = "2021"
publish = false

[dependencies]
dashmap = "*"
diesel = { version = "*", features = ["postgres", "r2d2"] }
