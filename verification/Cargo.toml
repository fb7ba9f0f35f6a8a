[package]
name = "todo_app"
version = "0.1.0"
edition = "2021"
publish = false

[dependencies]
chrono = "0.4"
cli-table = { version = "0.4", default-features = false }
