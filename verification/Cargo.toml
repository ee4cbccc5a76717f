[package]
name = "plonk_core"
version = "0.1.0"
edition = "2021"
publish = false

[dependencies]
ark-ff = "0.3"
ark-ec = "0.3"
ark-poly = "0.3"
ark-poly-commit = "0.3"
ark-bls12-381 = "0.3"
merlin = "3"
rayon = "1"
