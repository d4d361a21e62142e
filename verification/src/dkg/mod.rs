//! The key generation's building blocks.
pub mod accusations;
pub mod carrier;
pub mod complaint;
pub mod dmkg;
pub mod encryption;
pub mod errors;
pub mod keygen;
pub mod mss;
pub mod neji;
pub mod network;
pub mod params;
pub mod pedersen;
pub mod published;
pub mod round;
pub mod suite;
pub mod tampering;
