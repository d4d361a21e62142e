//! The key generations to compare, phase by phase, and the harness around them.
pub mod aggregatable;
pub mod btsof;
pub mod env;
pub mod five;
pub mod gurkan;
pub mod kalai;
pub mod malice;
pub mod neji;
pub mod protocol;
pub mod report;
