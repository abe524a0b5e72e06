[package]
name = "foyer"
version = "0.1.0"
edition = "2021"
publish = false

[dependencies]
twox-hash = "=1.6.3"
bytes = "1"

[dev-dependencies]
rand = { version = "=0.8.5", features = ["small_rng"] }
