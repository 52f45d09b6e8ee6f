//! Cryptographic primitive abstraction layer: authenticated encryption with
//! associated data, stream encryption, and lattice-based key exchange, with
//! secure erasure of secret key material.

pub mod aead;
pub mod kex;
pub mod stream;
