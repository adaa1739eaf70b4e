[package]
name = "threshold_bls"
version = "0.1.0"
edition = "2021"
publish = false

[dependencies]
bls12_381 = { version = "=0.9.0", features = ["experimental"] }
group = "=0.14.0"
sha2 = "=0.10.9"
