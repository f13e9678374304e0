//! The management protocol without its transport.
//!
//! `response` classifies the lines of the server, `command` holds the six
//! management commands, `capability` the capabilities that a server
//! announces, `auth` the authentication exchange, and `handshake` the way
//! from an address to an authenticated session. Nothing here reads or writes:
//! a caller performs what is asked for and hands back what it read.

pub mod auth;
pub mod capability;
pub mod command;
pub mod handshake;
pub mod name_map;
pub mod response;
