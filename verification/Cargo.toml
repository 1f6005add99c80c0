[package]
name = "sprite_pipeline"
version = "0.1.0"
edition = "2021"
publish = false

[dependencies]
base64 = "=0.22.1"
chrono = { version = "=0.4.45", default-features = false, features = ["clock", "serde", "std"] }
dotenvy = "=0.15.7"
image = { version = "=0.25.10", default-features = false, features = ["png", "jpeg", "webp"] }
oxipng = { version = "=9.1.5", default-features = false }
reqwest = { version = "=0.12.28", default-features = false, features = ["json", "rustls-tls"] }
serde = { version = "1", features = ["derive"] }
serde_json = "=1.0.154"
thiserror = "=2.0.21"
uuid = { version = "=1.29.0", features = ["v4"] }
