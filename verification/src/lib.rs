//! An SSH agent proxy library: the message formats of the SSH agent protocol,
//! the parsing of key lists out of agent answers, and the filtering of which
//! keys a client gets to see.

pub mod client;
pub mod key;
pub mod msg;
pub mod parse;
pub mod types;
pub mod wire;
