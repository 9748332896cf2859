//! Relay of round-based finality signatures from a beacon chain to a
//! randomness registry on a destination chain.
//!
//! The crate holds the decisions of the relay: the wire format of
//! justification frames, the bytes that validators sign, the signature
//! check, the destination call and the sequencing of these steps. Reading
//! from and writing to the chains is left to the caller.

pub mod bls;
pub mod codec;
pub mod commitment;
pub mod coordinator;
pub mod gateway;
pub mod hashing;
pub mod justification;
pub mod packing;
pub mod publisher;
