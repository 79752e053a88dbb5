//! Root commitments over ordered leaf records.
//!
//! Leaves are generated, encoded and hashed into a first level of digests;
//! the level is then halved by pairwise hashing until one digest, the root,
//! is left. An unpaired last digest is carried into the next level as it is.

pub mod error;
pub mod hash;
pub mod keccak;
pub mod poseidon;
pub mod reducer;
pub mod scheme;
