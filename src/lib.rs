//! Decoding of QScalp History (QSH) market data files and reconstruction of
//! order-book state from the MOEX order-log stream.
//!
//! Everything here works on values held in memory: reading files and gzip
//! decompression are left to the caller, who hands the decoded bytes over.

use vstd::prelude::*;

pub mod l3tol2;
pub mod moex2conv;
pub mod orderbook;
pub mod parse;
pub mod read;
pub mod types;

verus! {

/// The ways in which decoding or book maintenance can fail.
#[derive(Debug, Clone, PartialEq)]
pub enum QshError {
    /// Fewer bytes remain than a read asks for.
    UnexpectedEnd,
    /// A LEB128 value wider than 64 bits, or a running field that would
    /// leave the range of `i64` after a delta.
    Overflow,
    /// A length-prefixed string whose bytes are not UTF-8.
    InvalidUtf8,
    /// The input breaks a rule of the format or of a book operation.
    Validation(String),
    /// The book, or a translated transaction, is not in the state that an
    /// operation requires.
    InvalidState(String),
    /// A flag combination that the decoder cannot interpret.
    Parsing(String),
}

/// The variant of a `QshError`, without its message.
#[derive(Debug, Clone, Copy, PartialEq, Eq, Structural)]
pub enum ErrorKind {
    UnexpectedEnd,
    Overflow,
    InvalidUtf8,
    Validation,
    InvalidState,
    Parsing,
}

impl QshError {
    pub open spec fn spec_kind(&self) -> ErrorKind {
        match self {
            QshError::UnexpectedEnd => ErrorKind::UnexpectedEnd,
            QshError::Overflow => ErrorKind::Overflow,
            QshError::InvalidUtf8 => ErrorKind::InvalidUtf8,
            QshError::Validation(_) => ErrorKind::Validation,
            QshError::InvalidState(_) => ErrorKind::InvalidState,
            QshError::Parsing(_) => ErrorKind::Parsing,
        }
    }

    /// The variant of this error.
    #[verifier::when_used_as_spec(spec_kind)]
    pub fn kind(&self) -> (k: ErrorKind)
        ensures
            k == self.spec_kind(),
    {
        match self {
            QshError::UnexpectedEnd => ErrorKind::UnexpectedEnd,
            QshError::Overflow => ErrorKind::Overflow,
            QshError::InvalidUtf8 => ErrorKind::InvalidUtf8,
            QshError::Validation(_) => ErrorKind::Validation,
            QshError::InvalidState(_) => ErrorKind::InvalidState,
            QshError::Parsing(_) => ErrorKind::Parsing,
        }
    }
}

/// An error of the given kind, with a message for people.
pub fn error_of(kind: ErrorKind, msg: &str) -> (e: QshError)
    ensures
        e.kind() == kind,
{
    match kind {
        ErrorKind::UnexpectedEnd => QshError::UnexpectedEnd,
        ErrorKind::Overflow => QshError::Overflow,
        ErrorKind::InvalidUtf8 => QshError::InvalidUtf8,
        ErrorKind::Validation => QshError::Validation(msg.to_string()),
        ErrorKind::InvalidState => QshError::InvalidState(msg.to_string()),
        ErrorKind::Parsing => QshError::Parsing(msg.to_string()),
    }
}

} // verus!
