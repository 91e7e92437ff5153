//! A typed data model and codec for the IMAP4rev1 mail-access protocol.
//!
//! The crate turns protocol values (commands, responses, flags, mailbox
//! names, search queries, body structures) into wire bytes and turns client
//! command lines back into values.  Every primitive string type is validated
//! at construction, so a value that exists is always encodable as valid
//! IMAP syntax.
//!
//! - [`primitive`] holds the validated lexical types (atoms, quoted
//!   strings, literals, tags, and their unions);
//! - [`sequence`], [`command`], [`envelope`], [`body`] and [`response`]
//!   build the protocol data model on top of them, each type with a
//!   specification-level `encoded` form and a proven encoder;
//! - [`parse`] holds the specification-level grammar and the executable
//!   parsers, [`parse::command`] the two-stage command parser (framing,
//!   then grammar);
//! - [`roundtrip`] proves that parsing an encoding gives the value back;
//! - [`state`] gives the connection-phase labels and the command-legality
//!   lookup.

pub mod primitive;
pub mod body;
pub mod command;
pub mod envelope;
pub mod parse;
pub mod response;
pub mod roundtrip;
pub mod sequence;
pub mod state;

use vstd::prelude::*;

verus! {

/// The lexical rule that a fallible constructor found violated.
#[derive(Debug, Clone, Copy, PartialEq, Eq)]
pub enum ValidationError {
    /// The input was empty where the grammar demands at least one unit.
    Empty,
    /// The input holds a byte that the lexical rule does not allow.
    DisallowedByte,
    /// A numeric component lies outside its allowed range.
    OutOfRange,
}

} // verus!
