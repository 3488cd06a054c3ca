[package]
name = "semiavidpr"
version = "0.1.0"
edition = "2021"
publish = false

[dependencies]
ark-ff = "=0.3.0"
ark-ec = "=0.3.0"
ark-poly = "=0.3.0"
ark-poly-commit = "=0.3.0"
ark-serialize = "=0.3.0"
ark-std = "=0.3.0"
ark-bls12-381 = "=0.3.0"
ark-bn254 = "=0.3.0"
rand = "=0.8.8"
clap = { version = "=3.2.25", features = ["derive"] }
