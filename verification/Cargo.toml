[package]
name = "bloup"
version = "0.1.0"
edition = "2021"
publish = false

[dependencies]
nannou = "*"
nannou_egui = "*"
serde = { version = "1", features = ["derive"] }
serde_json = "1"
