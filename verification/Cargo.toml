[package]
name = "pairings_bls12381"
version = "0.1.0"
edition = "2021"
publish = false

[dependencies]
bls12_381 = "0.7"
ff = "0.12"
group = "0.12"
jni = "0.19"
rand_chacha = "0.3"
rand_core = "0.6"
subtle = "2"
