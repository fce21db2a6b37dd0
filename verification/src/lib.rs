//! Arithmetization and commitment core of a STARK-style proof engine:
//! columnar matrices over a 64-bit prime field, polynomial transforms,
//! running-evaluation tables with padding-aware terminal constraints,
//! Merkle commitments over row hashes, and verifier query bundles.

pub mod constraints;
pub mod field;
pub mod hashing;
pub mod matrix;
pub mod merkle;
pub mod stage;
pub mod table;
pub mod trace;
pub mod transform;
