[package]
name = "kalid"
version = "0.1.0"
edition = "2021"
publish = false

[dependencies]
chrono = { version = "0.4", default-features = false, features = ["std"] }
rand = "0.9"
uuid = { version = "1", features = ["v7"] }
thiserror = "2"
tokio = { version = "1", features = ["rt", "rt-multi-thread"] }
