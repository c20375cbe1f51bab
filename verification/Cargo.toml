[package]
name = "apron_services"
version = "0.1.0"
edition = "2021"
publish = false

[dependencies]
parity-scale-codec = { version = "=2.3.1", features = ["derive"] }
scale-info = { version = "=1.0.0", features = ["derive"] }
ink_env = "=3.0.0-rc6"
ink_storage = "=3.0.0-rc6"
ink_primitives = "=3.0.0-rc6"
