[package]
name = "jaspy"
version = "0.1.0"
edition = "2021"
publish = false

[dependencies]
time = "0.1"
serde = { version = "1", features = ["derive"] }
serde_json = "1"
rocket = { version = "0.5", features = ["json"] }
diesel = { version = "1.4", features = ["postgres"] }
r2d2 = "0.8"
r2d2-diesel = "1.0"
