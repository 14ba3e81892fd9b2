[package]
name = "santorini_ai"
version = "0.1.0"
edition = "2021"
publish = false

[dependencies]
rand = { version = "0.8", features = ["small_rng"] }
take_mut = "0.2"
chrono = "0.4"
