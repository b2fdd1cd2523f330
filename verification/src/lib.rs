//! A small server scaffold: a lifecycle-managed network-server abstraction
//! (construct from textual address, start, stop) together with a generic,
//! index-addressable sequence container used for internal bookkeeping.

pub mod ip;
pub mod list;
pub mod server;
