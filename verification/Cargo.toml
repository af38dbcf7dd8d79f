[package]
name = "freddo377"
version = "0.1.0"
edition = "2021"
publish = false

[dependencies]
ark-ff = "*"
decaf377 = "*"
merlin = "*"
rand_core = { version = "*", features = ["getrandom"] }
