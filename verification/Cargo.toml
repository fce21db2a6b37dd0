[package]
name = "ministark"
version = "0.1.0"
edition = "2021"
publish = false

[dependencies]
ark-ff = "=0.4.2"
ark-serialize = { version = "=0.4.2", features = ["derive"] }
digest = "=0.10.7"
sha2 = "=0.10.9"
winter-math = "=0.13.1"
