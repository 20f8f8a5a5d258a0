[package]
name = "bigm_simplex"
version = "0.1.0"
edition = "2021"
publish = false

[dependencies]
num-bigint = { version = "0.4", features = ["serde"] }
num-rational = { version = "0.4", features = ["serde"] }
num-traits = "0.2"
num-integer = "0.1"
nalgebra = { version = "*", default-features = false, features = ["std"] }
rayon = "1"
log = "0.4"
serde = { version = "1", features = ["derive"] }
