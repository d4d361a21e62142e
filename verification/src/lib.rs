//! Partially aggregatable distributed generation of a multi-part key, with its proofs.
pub mod algebra;
pub mod bench;
pub mod bls;
pub mod collections;
pub mod curve;
pub mod dkg;
pub mod hash;
pub mod json;
pub mod jubjub;
pub mod laws;
pub mod pairing;
pub mod parse;
pub mod sim;
pub mod text;
pub mod web;
