//! The core of a ManageSieve client and a parser for Sieve scripts.
//!
//! `protocol` holds the client side of the management protocol as functions
//! and state machines over lines and bytes; `parser` turns the text of a
//! script into a tree of statements. Both are stated over sequences of
//! characters, with the helpers of `text`, `decimal` and `outcome`.

pub mod decimal;
pub mod error;
pub mod outcome;
pub mod parser;
pub mod protocol;
pub mod text;
