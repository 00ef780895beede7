[package]
name = "copy_circuit"
version = "0.1.0"
edition = "2021"
publish = false

[dependencies]
halo2_proofs = "0.3"
itertools = "0.10"
ff = "0.13"
rand = "0.8"
