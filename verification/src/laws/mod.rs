//! Laws: what the operations are for, over all inputs, stated in terms of what goes in and what comes
//! out.
pub mod command_line;
pub mod complaints;
pub mod log;
pub mod malicious;
pub mod neji;
pub mod network;
pub mod rounds;
pub mod runs;
pub mod session;
pub mod sharing;
pub mod snapshot;
pub mod table;
pub mod texts;
pub mod web;
