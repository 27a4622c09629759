[package]
name = "pallet_commodities"
version = "0.1.0"
edition = "2021"
publish = false

[dependencies]
sp-runtime = "*"

[dev-dependencies]
sp-core = "*"
parity-scale-codec = "*"
