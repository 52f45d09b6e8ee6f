[package]
name = "sarkara"
version = "0.1.0"
edition = "2021"
publish = false

[dependencies]
ascon = "=0.1.4"
hc256 = "=0.1.6"
newhope = "=0.1.6"
rand = "0.3"
tiny-keccak = "=1.5.0"
