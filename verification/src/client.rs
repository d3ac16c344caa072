//! The local client.

pub mod code;
pub mod connect;
pub mod laws;
pub mod notes;
pub mod serve;
pub mod state;
