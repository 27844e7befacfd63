[package]
name = "gueltigkeit"
version = "0.1.0"
edition = "2021"
publish = false

[dependencies]
chrono = { version = "0.4", default-features = false, features = ["std"] }
phf = { version = "0.11", features = ["macros"] }

[dev-dependencies]
phf_generator = "0.11"
