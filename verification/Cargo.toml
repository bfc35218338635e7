[package]
name = "credx"
version = "0.1.0"
edition = "2021"
publish = false

[dependencies]
bls12_381_plus = "=0.7.0"
group = "0.12"
merlin = "=3.0.0"
rand_core = { version = "=0.6.4", features = ["getrandom"] }
serde = { version = "=1.0.229", features = ["derive"] }
uint-zigzag = { version = "=0.2.0", features = ["std"] }
