[package]
name = "credit_capacity"
version = "0.1.0"
edition = "2021"
publish = false

[dependencies]
actix-web = "4"
csv = "1"
serde = { version = "1", features = ["derive"] }
