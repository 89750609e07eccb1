[package]
name = "ocs_pi"
version = "0.1.0"
edition = "2021"
publish = false

[dependencies]
base64 = "=0.22.1"
iced = { version = "=0.14.0", default-features = false, features = ["markdown", "thread-pool", "tiny-skia", "x11"] }
image = { version = "=0.25.10", default-features = false, features = ["png"] }
serde_json = "=1.0.154"
