[package]
name = "muskitty"
version = "0.1.0"
edition = "2021"
publish = false

[dependencies]
reqwest = { version = "0.12", default-features = false, features = ["rustls-tls"] }
softbuffer = "0.4"
tokio = { version = "1", features = ["rt", "time"] }
winit = "0.30"
