//! When working with BESS goes wrong.

use vstd::prelude::*;

use crate::block::Ident;

verus! {

#[verifier::external_type_specification]
#[verifier::external_body]
pub struct ExIoError(std::io::Error);

/// A specialized `Result` type for BESS operations.
pub type Result<T, E = Error> = std::result::Result<T, E>;

/// The error type for BESS operations.
#[derive(Debug)]
pub enum Error {
    /// The byte source or sink failed.
    Io(std::io::Error),
    /// A value did not fit the shape it was read as.
    Message(String),
    /// A required block is missing; holds its identifier.
    Required(Ident),
    /// A length or offset does not fit its wire field.
    TooLarge,
    /// The input ended before the shape being read.
    TooShort,
    /// The shape cannot be transcoded.
    Unsupported,
}

/// Why a byte sequence does not decode, as contracts state it.
pub enum Fault {
    /// Fewer bytes remain than the shape needs.
    TooShort,
    /// The bytes do not hold a value of the shape.
    Malformed,
}

impl Fault {
    /// `e` is the error that reports this fault.
    pub open spec fn reported_by(self, e: Error) -> bool {
        match self {
            Fault::TooShort => e is TooShort,
            Fault::Malformed => e is Message,
        }
    }
}

} // verus!
