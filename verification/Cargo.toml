[package]
name = "shareplay"
version = "0.1.0"
edition = "2021"
publish = false

[dependencies]
chrono = "*"
uuid = { version = "*", features = ["v4"] }
serde_json = "*"
image = { version = "*", default-features = false, features = ["jpeg", "png"] }
