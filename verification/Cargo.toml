[package]
name = "aobscan"
version = "0.3.0"
edition = "2021"
publish = false

[dependencies]
num_cpus = "1"
object = { version = "0.30", default-features = false, features = ["read", "std"] }

[dev-dependencies]
rand = "0.8"
