[package]
name = "candidate_backing"
version = "0.1.0"
edition = "2021"
publish = false

[dependencies]
bitvec = "=1.1.1"
futures = "=0.3.34"
sp-core = "=43.0.0"
sp-keystore = "=0.49.0"
