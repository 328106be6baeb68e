[package]
name = "gibmon"
version = "0.1.0"
edition = "2021"
publish = false

[dependencies]
serialport = { version = "=4.10.1", default-features = false }
image = "=0.25.10"
imageproc = "=0.25.1"
ab_glyph = "=0.2.32"
reqwest = { version = "=0.12.28", default-features = false, features = ["rustls-tls", "json"] }
tokio = { version = "=1.53.2", features = ["macros", "rt-multi-thread", "time"] }
serde = { version = "=1.0.229", features = ["derive"] }
serde_yaml = "=0.9.34"
base64 = "=0.22.1"
