//! Hashing and signatures.

pub mod hash;
pub mod sig;
