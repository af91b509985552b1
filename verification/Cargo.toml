[package]
name = "polars_time"
version = "0.1.0"
edition = "2021"
publish = false

[dev-dependencies]
chrono = { version = "0.4", default-features = false }
