//! Loader and synthesizer for line-delimited JSON descriptions of rank-1
//! constraint systems (R1CS).
//!
//! The crate parses an R1CS circuit file, a witness file and a public-inputs
//! file into strongly typed structures, partitions the variable space into
//! the constant-one variable, public inputs and private witnesses, and
//! drives an external constraint-system builder so that the same circuit
//! synthesizes identically with and without a concrete witness.

pub mod builder;
pub mod circuit;
pub mod errors;
pub mod field;
pub mod header;
pub mod inputs;
pub mod r1cs;
pub mod records;
pub mod witness;

pub use errors::BridgeError;
