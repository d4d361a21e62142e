//! The interactive session: one run of the key generation, stepped phase by phase.
pub mod lines;
pub mod malice;
pub mod phase;
pub mod session;
pub mod tree;
pub mod view;
