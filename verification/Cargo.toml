[package]
name = "cercopes_dialog"
version = "0.1.0"
edition = "2021"

[dependencies]
ahash = "0.8"
rand = "0.8"
rand_xoshiro = "0.6"
serde = { version = "1", features = ["derive"] }
