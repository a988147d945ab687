//! Debouncing of a mouse's left button, between the physical mouse and a
//! virtual one.

pub mod args;
pub mod codes;
pub mod device;
pub mod event;
pub mod filter;
pub mod guarantees;
pub mod laws;
pub mod session;
pub mod text;
pub mod time;
pub mod wire;
