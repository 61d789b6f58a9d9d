//! The decisions of a TCP port forwarder with a client blacklist.

pub mod addr;
pub mod blacklist;
pub mod connection;
pub mod daemon;
pub mod forwarder;
pub mod log;
pub mod net;
pub mod rule;
pub mod text;
