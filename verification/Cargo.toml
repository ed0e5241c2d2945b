[package]
name = "layout21"
version = "0.1.0"
edition = "2021"
publish = false

[dependencies]
gds21 = "=0.1.1"
serde = { version = "=1.0.229", features = ["derive"] }
serde_yaml = "=0.8.26"
slotmap = { version = "=1.1.1", features = ["serde"] }
